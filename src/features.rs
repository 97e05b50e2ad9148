use vstd::prelude::*;

verus! {

/// One unit of similarity: scores are fixed-point values where this number means 1.
pub const SCORE_ONE: u64 = 1_000_000;

pub const POPULARITY_WEIGHT: u64 = 3;

pub const VOTE_WEIGHT: u64 = 3;

pub const ACTORS_WEIGHT: u64 = 12;

pub const GENRES_WEIGHT: u64 = 9;

pub const LANG_WEIGHT: u64 = 4;

pub const DESC_WEIGHT: u64 = 13;

#[derive(PartialEq, Eq, Structural, Clone, Copy, Debug, Hash)]
pub enum Genre {
    Drama,
    Comedy,
    Crime,
}

#[derive(PartialEq, Eq, Structural, Clone, Copy, Debug, Hash)]
pub enum Language {
    English,
    French,
}

/// A cast member: a 128-bit identifier and a popularity figure.
#[derive(Clone, Copy, Debug)]
pub struct ActorVector {
    pub id: u128,
    pub popularity: u64,
}

/// The features of a candidate movie that the scoring reads.
/// The text embedding of the description is scored apart and handed in as a relevance value.
#[derive(Clone, Debug)]
pub struct MovieVector {
    pub uuid: u128,
    pub actors: Vec<ActorVector>,
    pub genres: Vec<Genre>,
    pub original_lang: Language,
    pub popularity: u64,
    pub title: String,
    pub vote_avg: u64,
    pub vote_count: u64,
}

/// The key under which a genre is kept in a preference map; the order follows the declaration.
pub open spec fn genre_code(g: Genre) -> u128 {
    match g {
        Genre::Drama => 0,
        Genre::Comedy => 1,
        Genre::Crime => 2,
    }
}

/// The key under which a language is kept in a preference map.
pub open spec fn lang_code(l: Language) -> u128 {
    match l {
        Language::English => 0,
        Language::French => 1,
    }
}

pub fn genre_key(g: Genre) -> (r: u128)
    ensures
        r == genre_code(g),
{
    match g {
        Genre::Drama => 0,
        Genre::Comedy => 1,
        Genre::Crime => 2,
    }
}

pub fn lang_key(l: Language) -> (r: u128)
    ensures
        r == lang_code(l),
{
    match l {
        Language::English => 0,
        Language::French => 1,
    }
}

pub open spec fn actor_ids(actors: Seq<ActorVector>) -> Seq<u128> {
    actors.map_values(|a: ActorVector| a.id)
}

pub open spec fn genre_codes(genres: Seq<Genre>) -> Seq<u128> {
    genres.map_values(|g: Genre| genre_code(g))
}

/// The identifiers of the cast, in order.
pub fn actor_keys(actors: &Vec<ActorVector>) -> (r: Vec<u128>)
    ensures
        r@ == actor_ids(actors@),
{
    let mut r: Vec<u128> = Vec::new();
    let mut i: usize = 0;
    while i < actors.len()
        invariant
            i <= actors.len(),
            r@ == actor_ids(actors@.take(i as int)),
        decreases actors.len() - i,
    {
        r.push(actors[i].id);
        i = i + 1;
        assert(actor_ids(actors@.take(i as int)) =~= actor_ids(actors@.take(i - 1)).push(
            actors@[i - 1].id,
        ));
    }
    assert(actors@.take(i as int) =~= actors@);
    r
}

/// The preference-map keys of the genres, in order.
pub fn genre_keys(genres: &Vec<Genre>) -> (r: Vec<u128>)
    ensures
        r@ == genre_codes(genres@),
{
    let mut r: Vec<u128> = Vec::new();
    let mut i: usize = 0;
    while i < genres.len()
        invariant
            i <= genres.len(),
            r@ == genre_codes(genres@.take(i as int)),
        decreases genres.len() - i,
    {
        r.push(genre_key(genres[i]));
        i = i + 1;
        assert(genre_codes(genres@.take(i as int)) =~= genre_codes(genres@.take(i - 1)).push(
            genre_code(genres@[i - 1]),
        ));
    }
    assert(genres@.take(i as int) =~= genres@);
    r
}

/// Matches of a merge walk over two sequences read as ascending: each element of `a` is
/// counted when the walk over `b` meets an equal element.
pub open spec fn merge_matches(a: Seq<u128>, b: Seq<u128>) -> nat
    decreases a.len() + b.len(),
{
    if a.len() == 0 || b.len() == 0 {
        0
    } else if b[0] < a[0] {
        merge_matches(a, b.drop_first())
    } else if a[0] == b[0] {
        1 + merge_matches(a.drop_first(), b)
    } else {
        merge_matches(a.drop_first(), b)
    }
}

proof fn lemma_merge_matches_le(a: Seq<u128>, b: Seq<u128>)
    ensures
        merge_matches(a, b) <= a.len(),
    decreases a.len() + b.len(),
{
    if a.len() == 0 || b.len() == 0 {
    } else if b[0] < a[0] {
        lemma_merge_matches_le(a, b.drop_first());
    } else {
        lemma_merge_matches_le(a.drop_first(), b);
    }
}

pub open spec fn ascending(s: Seq<u128>) -> bool {
    forall|i: int, j: int| 0 <= i <= j < s.len() ==> s[i] <= s[j]
}

/// The number of positions of `a` whose element occurs in `b`.
pub open spec fn occurring_in(a: Seq<u128>, b: Seq<u128>) -> nat
    decreases a.len(),
{
    if a.len() == 0 {
        0
    } else {
        (if b.contains(a[0]) {
            1nat
        } else {
            0nat
        }) + occurring_in(a.drop_first(), b)
    }
}

proof fn lemma_occurring_drop_smaller(a: Seq<u128>, b: Seq<u128>)
    requires
        b.len() > 0,
        forall|i: int| 0 <= i < a.len() ==> b[0] < a[i],
    ensures
        occurring_in(a, b) == occurring_in(a, b.drop_first()),
    decreases a.len(),
{
    if a.len() > 0 {
        let t = b.drop_first();
        assert(b.contains(a[0]) ==> t.contains(a[0])) by {
            if b.contains(a[0]) {
                let k = choose|k: int| 0 <= k < b.len() && b[k] == a[0];
                assert(k > 0);
                assert(t[k - 1] == a[0]);
            }
        }
        assert(t.contains(a[0]) ==> b.contains(a[0])) by {
            if t.contains(a[0]) {
                let k = choose|k: int| 0 <= k < t.len() && t[k] == a[0];
                assert(b[k + 1] == a[0]);
            }
        }
        lemma_occurring_drop_smaller(a.drop_first(), b);
    }
}

/// On ascending inputs the merge walk counts the positions of `a` whose element occurs in `b`.
pub proof fn lemma_merge_matches_counts(a: Seq<u128>, b: Seq<u128>)
    requires
        ascending(a),
        ascending(b),
    ensures
        merge_matches(a, b) == occurring_in(a, b),
    decreases a.len() + b.len(),
{
    if a.len() == 0 {
    } else if b.len() == 0 {
        lemma_occurring_empty(a, b);
    } else if b[0] < a[0] {
        lemma_merge_matches_counts(a, b.drop_first());
        lemma_occurring_drop_smaller(a, b);
    } else if a[0] == b[0] {
        assert(b.contains(a[0]));
        lemma_merge_matches_counts(a.drop_first(), b);
    } else {
        assert(!b.contains(a[0]));
        lemma_merge_matches_counts(a.drop_first(), b);
    }
}

proof fn lemma_occurring_empty(a: Seq<u128>, b: Seq<u128>)
    requires
        b.len() == 0,
    ensures
        occurring_in(a, b) == 0,
    decreases a.len(),
{
    if a.len() > 0 {
        lemma_occurring_empty(a.drop_first(), b);
    }
}

/// The size of the intersection of two ascending sequences, found in one merge walk.
pub fn _inter_cardinality(a: &[u128], b: &[u128]) -> (r: usize)
    ensures
        r == merge_matches(a@, b@),
        ascending(a@) && ascending(b@) ==> r == occurring_in(a@, b@),
        r <= a@.len(),
{
    proof {
        lemma_merge_matches_le(a@, b@);
        if ascending(a@) && ascending(b@) {
            lemma_merge_matches_counts(a@, b@);
        }
    }
    let mut count: usize = 0;
    let mut i: usize = 0;
    let mut j: usize = 0;
    assert(a@.skip(0) =~= a@);
    assert(b@.skip(0) =~= b@);
    while i < a.len() && j < b.len()
        invariant
            i <= a.len(),
            j <= b.len(),
            count + merge_matches(a@.skip(i as int), b@.skip(j as int)) == merge_matches(a@, b@),
            count <= i,
        decreases a.len() + b.len() - i - j,
    {
        proof {
            lemma_merge_matches_le(a@.skip(i as int), b@.skip(j as int));
        }
        if b[j] < a[i] {
            assert(b@.skip(j as int).drop_first() =~= b@.skip(j + 1));
            j = j + 1;
        } else {
            assert(a@.skip(i as int).drop_first() =~= a@.skip(i + 1));
            if a[i] == b[j] {
                count = count + 1;
            }
            i = i + 1;
        }
    }
    count
}

/// Popularity closeness: the smaller figure over the larger one, 1 when both are 0.
pub open spec fn closeness(x: nat, y: nat) -> nat {
    let hi = if x >= y { x } else { y };
    let lo = if x >= y { y } else { x };
    if hi == 0 {
        SCORE_ONE as nat
    } else {
        (SCORE_ONE as int * lo as int / hi as int) as nat
    }
}

/// A ratio in score units, 0 when the denominator is 0.
pub open spec fn ratio(n: nat, d: nat) -> nat {
    if d == 0 {
        0
    } else {
        (SCORE_ONE as int * n as int / d as int) as nat
    }
}

/// The score of two movies against each other, in score units.
pub open spec fn movie_score(a: MovieVector, b: MovieVector) -> nat {
    let inter_a = merge_matches(actor_ids(a.actors@), actor_ids(b.actors@));
    let inter_g = merge_matches(genre_codes(a.genres@), genre_codes(b.genres@));
    let pop = closeness(a.popularity as nat, b.popularity as nat);
    let act = ratio(inter_a, (a.actors@.len() + b.actors@.len() - inter_a) as nat);
    let gen = ratio(inter_g, a.genres@.len() * b.genres@.len());
    let lang: nat = if a.original_lang == b.original_lang {
        SCORE_ONE as nat
    } else {
        0
    };
    ((pop * POPULARITY_WEIGHT as nat + act * ACTORS_WEIGHT as nat + gen * GENRES_WEIGHT as nat
        + lang * LANG_WEIGHT as nat) / (POPULARITY_WEIGHT + ACTORS_WEIGHT + GENRES_WEIGHT
        + LANG_WEIGHT + DESC_WEIGHT) as nat) as nat
}

fn ratio_exec(n: usize, d: u128) -> (r: u128)
    ensures
        r == ratio(n as nat, d as nat),
        r <= SCORE_ONE * usize::MAX,
{
    if d == 0 {
        0
    } else {
        assert(SCORE_ONE * n <= SCORE_ONE * usize::MAX) by (nonlinear_arith)
            requires
                n <= usize::MAX,
        ;
        let r = (SCORE_ONE as u128) * (n as u128) / d;
        assert(r <= SCORE_ONE * usize::MAX) by (nonlinear_arith)
            requires
                r == (SCORE_ONE as int * n as int) / d as int,
                d >= 1,
                SCORE_ONE * n <= SCORE_ONE * usize::MAX,
        ;
        r
    }
}

/// Scores two movies against each other on popularity, cast, genres and language.
pub fn similarity(a: MovieVector, b: MovieVector) -> (r: u128)
    ensures
        r == movie_score(a, b),
{
    let hi = if a.popularity >= b.popularity {
        a.popularity
    } else {
        b.popularity
    };
    let lo = if a.popularity >= b.popularity {
        b.popularity
    } else {
        a.popularity
    };
    let pop: u128 = if hi == 0 {
        SCORE_ONE as u128
    } else {
        assert(SCORE_ONE * lo <= SCORE_ONE * u64::MAX) by (nonlinear_arith)
            requires
                lo <= u64::MAX,
        ;
        (SCORE_ONE as u128) * (lo as u128) / (hi as u128)
    };
    assert(pop <= SCORE_ONE) by (nonlinear_arith)
        requires
            pop == (if hi == 0 {
                SCORE_ONE as int
            } else {
                SCORE_ONE as int * lo as int / hi as int
            }),
            lo <= hi,
    ;
    let ka = actor_keys(&a.actors);
    let kb = actor_keys(&b.actors);
    let inter_a = _inter_cardinality(ka.as_slice(), kb.as_slice());
    let ga = genre_keys(&a.genres);
    let gb = genre_keys(&b.genres);
    let inter_g = _inter_cardinality(ga.as_slice(), gb.as_slice());
    let act = ratio_exec(inter_a, (a.actors.len() as u128) + (b.actors.len() as u128) - (inter_a as u128));
    let la = a.genres.len() as u128;
    let lb = b.genres.len() as u128;
    assert(la * lb <= usize::MAX * usize::MAX) by (nonlinear_arith)
        requires
            la <= usize::MAX,
            lb <= usize::MAX,
    ;
    let gprod = la * lb;
    let gen = ratio_exec(inter_g, gprod);
    let lang: u128 = if a.original_lang == b.original_lang {
        SCORE_ONE as u128
    } else {
        0
    };
    let wp = POPULARITY_WEIGHT as u128;
    let wa = ACTORS_WEIGHT as u128;
    let wg = GENRES_WEIGHT as u128;
    let wl = LANG_WEIGHT as u128;
    assert(pop * wp + act * wa + gen * wg + lang * wl <= 28 * SCORE_ONE * usize::MAX)
        by (nonlinear_arith)
        requires
            wp == 3,
            wa == 12,
            wg == 9,
            wl == 4,
            pop <= SCORE_ONE,
            lang <= SCORE_ONE,
            act <= SCORE_ONE * usize::MAX,
            gen <= SCORE_ONE * usize::MAX,
    ;
    (pop * (POPULARITY_WEIGHT as u128) + act * (ACTORS_WEIGHT as u128) + gen * (GENRES_WEIGHT
        as u128) + lang * (LANG_WEIGHT as u128)) / ((POPULARITY_WEIGHT + ACTORS_WEIGHT
        + GENRES_WEIGHT + LANG_WEIGHT + DESC_WEIGHT) as u128)
}

} // verus!
