use std::collections::HashMap;
use vstd::prelude::*;
use crate::features::{
    actor_ids, actor_keys, genre_codes, genre_keys, lang_code, lang_key, MovieVector, ACTORS_WEIGHT,
    DESC_WEIGHT, GENRES_WEIGHT, LANG_WEIGHT, SCORE_ONE,
};
use crate::weight_map::{
    add_weight, distribute, empty_map, lemma_add_weight_total, lemma_weight_le_total, map_add,
    built_from, keys_unique, lemma_add_weight_unique, lemma_built_from_keys_unique,
    lemma_built_from_unique, lemma_spread_unique, map_weight, spread, total, weight_entries,
    weight_of, WeightMap,
};

verus! {

broadcast use vstd::std_specs::hash::group_hash_axioms;

/// The preferences of one user: accumulated weights per cast member, genre and language,
/// the interaction weight absorbed so far and since the last rebuild, and the scores
/// already computed.
pub struct UserProfile {
    pub actors_rank: WeightMap,
    pub genre_rank: WeightMap,
    pub lang_rank: WeightMap,
    pub actors_total: u64,
    pub genres_total: u64,
    pub langs_total: u64,
    pub queued_weight: u64,
    pub profile_weight: u64,
    pub score_cache: HashMap<u128, u128>,
}

/// The weight that `keys` hold in a preference map, a key counted once per occurrence.
pub open spec fn keys_weight(s: Seq<(u128, u64)>, keys: Seq<u128>) -> nat
    decreases keys.len(),
{
    if keys.len() == 0 {
        0
    } else {
        keys_weight(s, keys.drop_last()) + weight_of(s, keys.last()) as nat
    }
}

/// The overlap of `keys` with a preference map whose weights add up to `tot`: the weight
/// they hold over the weight of the map's top entries, in score units. Since as many top
/// entries are taken as the larger of the item's and the map's key counts, the whole map
/// counts. A key repeated in `keys` counts each time.
pub open spec fn overlap_score(s: Seq<(u128, u64)>, tot: nat, keys: Seq<u128>) -> nat {
    if tot == 0 {
        0
    } else {
        (SCORE_ONE as int * keys_weight(s, keys) as int / tot as int) as nat
    }
}

/// The language match: the profile's accumulated weight for the language, 0 when it was
/// never seen. Interaction weights are written in score units, so a weight of `SCORE_ONE`
/// is one unit of interaction weight and adds 1 to this sub-score.
pub open spec fn lang_score(s: Seq<(u128, u64)>, k: u128) -> nat {
    weight_of(s, k) as nat
}

/// The weighted mean of the four sub-scores.
pub open spec fn combined_score(act: nat, gen: nat, lang: nat, text: nat) -> nat {
    ((act * ACTORS_WEIGHT as nat + gen * GENRES_WEIGHT as nat + lang * LANG_WEIGHT as nat + text
        * DESC_WEIGHT as nat) / (ACTORS_WEIGHT + GENRES_WEIGHT + LANG_WEIGHT + DESC_WEIGHT) as nat) as nat
}

/// Whether the weight queued since the last rebuild, with `incoming` added, has drifted
/// more than 5% from the profile's weight: |(pw - (queued + incoming)) / pw| > 0.05.
/// A profile that has absorbed nothing yet always rebuilds.
pub open spec fn rebuild_due(profile_weight: nat, queued: nat, incoming: nat) -> bool {
    let diff = profile_weight - (queued + incoming);
    let abs = if diff >= 0 {
        diff
    } else {
        -diff
    };
    profile_weight == 0 || 20 * abs > profile_weight
}

impl UserProfile {
    pub open spec fn actors(&self) -> Seq<(u128, u64)> {
        weight_entries(&self.actors_rank)
    }

    pub open spec fn genres(&self) -> Seq<(u128, u64)> {
        weight_entries(&self.genre_rank)
    }

    pub open spec fn langs(&self) -> Seq<(u128, u64)> {
        weight_entries(&self.lang_rank)
    }

    pub open spec fn wf(&self) -> bool {
        &&& self.actors_total == total(self.actors())
        &&& self.genres_total == total(self.genres())
        &&& self.langs_total == total(self.langs())
        &&& self.actors_total <= self.profile_weight
        &&& self.genres_total <= self.profile_weight
        &&& self.langs_total == self.profile_weight
        &&& self.queued_weight <= self.profile_weight
        &&& keys_unique(self.actors())
        &&& keys_unique(self.genres())
        &&& keys_unique(self.langs())
    }

    /// The score of `item` computed afresh, with `relevance` the text relevance of its
    /// description against the interaction history.
    pub open spec fn fresh_score(&self, item: MovieVector, relevance: nat) -> nat {
        combined_score(
            overlap_score(self.actors(), self.actors_total as nat, actor_ids(item.actors@)),
            overlap_score(self.genres(), self.genres_total as nat, genre_codes(item.genres@)),
            lang_score(self.langs(), lang_code(item.original_lang)),
            relevance,
        )
    }

    /// The score that `similarity` gives: the cached one if there is one.
    pub open spec fn score_of(&self, item: MovieVector, relevance: nat) -> nat {
        if self.score_cache@.contains_key(item.uuid) {
            self.score_cache@[item.uuid] as nat
        } else {
            self.fresh_score(item, relevance)
        }
    }

    /// `after` is this profile once `similarity` has scored `item` as `r`.
    pub open spec fn scored(&self, after: &UserProfile, item: MovieVector, relevance: nat, r: u128) -> bool {
        &&& r == self.score_of(item, relevance)
        &&& after.score_cache@ == self.score_cache@.insert(item.uuid, r)
        &&& after.same_preferences(self)
    }

    pub open spec fn same_preferences(&self, other: &UserProfile) -> bool {
        &&& self.actors() == other.actors()
        &&& self.genres() == other.genres()
        &&& self.langs() == other.langs()
        &&& self.actors_total == other.actors_total
        &&& self.genres_total == other.genres_total
        &&& self.langs_total == other.langs_total
        &&& self.queued_weight == other.queued_weight
        &&& self.profile_weight == other.profile_weight
    }

    /// `after` is this profile once an interaction of weight `w` with `item` was taken in,
    /// `invalidated` telling whether it forced an invalidation: the weight is handed out
    /// over the cast and the genres and given whole to the language; an invalidation empties
    /// the cache and resets the queued weight, otherwise the weight is queued and the cache
    /// kept.
    pub open spec fn interacted(
        &self,
        after: &UserProfile,
        item: MovieVector,
        w: u64,
        invalidated: bool,
    ) -> bool {
        &&& after.actors() == spread(self.actors(), actor_ids(item.actors@), w, item.actors@.len())
        &&& after.genres() == spread(self.genres(), genre_codes(item.genres@), w, item.genres@.len())
        &&& after.langs() == add_weight(self.langs(), lang_code(item.original_lang), w)
        &&& after.profile_weight == self.profile_weight + w
        &&& invalidated == rebuild_due(
            self.profile_weight as nat,
            self.queued_weight as nat,
            w as nat,
        )
        &&& invalidated ==> after.score_cache@ == Map::<u128, u128>::empty() && after.queued_weight
            == 0
        &&& !invalidated ==> after.score_cache@ == self.score_cache@ && after.queued_weight
            == self.queued_weight + w
    }

    /// An empty profile: no weights, nothing absorbed, nothing cached.
    pub fn new() -> (r: Self)
        ensures
            r.wf(),
            r.actors() == Seq::<(u128, u64)>::empty(),
            r.genres() == Seq::<(u128, u64)>::empty(),
            r.langs() == Seq::<(u128, u64)>::empty(),
            r.profile_weight == 0,
            r.queued_weight == 0,
            r.score_cache@ == Map::<u128, u128>::empty(),
    {
        UserProfile {
            actors_rank: empty_map(),
            genre_rank: empty_map(),
            lang_rank: empty_map(),
            actors_total: 0,
            genres_total: 0,
            langs_total: 0,
            queued_weight: 0,
            profile_weight: 0,
            score_cache: HashMap::new(),
        }
    }
}

/// Whether a saved state is one that a profile can be in: each map's weights fit, the cast
/// and genre weights do not exceed the absorbed weight, the language weights equal it, and
/// the queued weight does not exceed it.
pub open spec fn consistent_state(
    actors: Seq<(u128, u64)>,
    genres: Seq<(u128, u64)>,
    langs: Seq<(u128, u64)>,
    queued: nat,
    profile_weight: nat,
) -> bool {
    &&& total(actors) <= profile_weight
    &&& total(genres) <= profile_weight
    &&& total(langs) == profile_weight
    &&& queued <= profile_weight
}

impl UserProfile {
    /// Rebuilds a profile from saved weights; the cache starts empty. `None` when the saved
    /// state is not one that a profile can be in.
    pub fn restore(
        actors: &Vec<(u128, u64)>,
        genres: &Vec<(u128, u64)>,
        langs: &Vec<(u128, u64)>,
        queued: u64,
        profile_weight: u64,
    ) -> (r: Option<UserProfile>)
        ensures
            r is Some <==> consistent_state(
                actors@,
                genres@,
                langs@,
                queued as nat,
                profile_weight as nat,
            ),
            r matches Some(p) ==> {
                &&& p.wf()
                &&& p.actors() == built_from(actors@)
                &&& p.genres() == built_from(genres@)
                &&& p.langs() == built_from(langs@)
                &&& p.queued_weight == queued
                &&& p.profile_weight == profile_weight
                &&& p.score_cache@ == Map::<u128, u128>::empty()
            },
    {
        let (am, at) = match WeightMap::from_entries(actors) {
            Some(x) => x,
            None => return None,
        };
        let (gm, gt) = match WeightMap::from_entries(genres) {
            Some(x) => x,
            None => return None,
        };
        let (lm, lt) = match WeightMap::from_entries(langs) {
            Some(x) => x,
            None => return None,
        };
        if at > profile_weight || gt > profile_weight || lt != profile_weight
            || queued > profile_weight {
            return None;
        }
        proof {
            lemma_built_from_keys_unique(actors@);
            lemma_built_from_keys_unique(genres@);
            lemma_built_from_keys_unique(langs@);
        }
        Some(
            UserProfile {
                actors_rank: am,
                genre_rank: gm,
                lang_rank: lm,
                actors_total: at,
                genres_total: gt,
                langs_total: lt,
                queued_weight: queued,
                profile_weight,
                score_cache: HashMap::new(),
            },
        )
    }
}

/// Saving a profile's weights and restoring them gives back the same maps, keys, weights
/// and order: a well-formed profile's state is always accepted, and rebuilding each map
/// from its entries reproduces it.
pub proof fn lemma_restore_round_trip(p: UserProfile)
    requires
        p.wf(),
    ensures
        consistent_state(
            p.actors(),
            p.genres(),
            p.langs(),
            p.queued_weight as nat,
            p.profile_weight as nat,
        ),
        built_from(p.actors()) == p.actors(),
        built_from(p.genres()) == p.genres(),
        built_from(p.langs()) == p.langs(),
{
    lemma_built_from_unique(p.actors());
    lemma_built_from_unique(p.genres());
    lemma_built_from_unique(p.langs());
}

/// Decides whether an interaction of weight `incoming` forces a rebuild.
pub fn needs_rebuild(profile_weight: u64, queued: u64, incoming: u64) -> (r: bool)
    ensures
        r == rebuild_due(profile_weight as nat, queued as nat, incoming as nat),
{
    let pending = (queued as u128) + (incoming as u128);
    let pw = profile_weight as u128;
    let abs = if pw >= pending {
        pw - pending
    } else {
        pending - pw
    };
    profile_weight == 0 || 20 * abs > pw
}

fn overlap(m: &WeightMap, tot: u64, keys: &Vec<u128>) -> (r: u128)
    requires
        tot == total(weight_entries(m)),
    ensures
        r == overlap_score(weight_entries(m), tot as nat, keys@),
        r <= SCORE_ONE * (usize::MAX as int + 1),
{
    let ghost s = weight_entries(m);
    let mut held: u128 = 0;
    let mut i: usize = 0;
    assert(keys@.take(0) =~= Seq::<u128>::empty());
    while i < keys.len()
        invariant
            i <= keys.len(),
            s == weight_entries(m),
            tot == total(s),
            held == keys_weight(s, keys@.take(i as int)),
            held <= i * (tot as int),
        decreases keys.len() - i,
    {
        let w = map_weight(m, keys[i]);
        proof {
            lemma_weight_le_total(s, keys@[i as int]);
            assert(held + w <= (i + 1) * (tot as int)) by (nonlinear_arith)
                requires
                    held <= i * (tot as int),
                    w <= tot,
            ;
            assert((i + 1) * (tot as int) <= usize::MAX as int * u64::MAX as int)
                by (nonlinear_arith)
                requires
                    i < usize::MAX,
                    tot <= u64::MAX,
            ;
        }
        held = held + (w as u128);
        assert(keys@.take(i + 1).drop_last() =~= keys@.take(i as int));
        i = i + 1;
    }
    assert(keys@.take(i as int) =~= keys@);
    if tot == 0 {
        0
    } else {
        let t = tot as u128;
        let q = held / t;
        let rem = held % t;
        proof {
            assert(q <= i) by (nonlinear_arith)
                requires
                    held <= i * (tot as int),
                    q == (held as int) / (tot as int),
                    tot > 0,
            ;
            assert(rem < tot) by (nonlinear_arith)
                requires
                    rem == (held as int) % (tot as int),
                    tot > 0,
            ;
            assert(SCORE_ONE * rem <= SCORE_ONE * u64::MAX) by (nonlinear_arith)
                requires
                    rem <= u64::MAX,
            ;
            assert(SCORE_ONE * q <= SCORE_ONE * usize::MAX) by (nonlinear_arith)
                requires
                    q <= usize::MAX,
            ;
            assert(held == q * tot + rem) by (nonlinear_arith)
                requires
                    q == (held as int) / (tot as int),
                    rem == (held as int) % (tot as int),
                    tot > 0,
            ;
            vstd::arithmetic::div_mod::lemma_hoist_over_denominator(
                SCORE_ONE as int * rem as int,
                SCORE_ONE as int * q as int,
                tot as nat,
            );
            assert(SCORE_ONE as int * held as int == SCORE_ONE as int * rem as int + (SCORE_ONE as int * q as int) * tot as int)
                by (nonlinear_arith)
                requires
                    held == q * tot + rem,
            ;
            assert((SCORE_ONE as int * rem as int) / (tot as int) <= SCORE_ONE) by (nonlinear_arith)
                requires
                    rem < tot,
                    tot > 0,
            ;
        }
        (SCORE_ONE as u128) * q + ((SCORE_ONE as u128) * rem) / t
    }
}

/// Combines the sub-scores with the feature weights.
pub fn combine(act: u128, gen: u128, lang: u64, text: u64) -> (r: u128)
    requires
        act <= SCORE_ONE * (usize::MAX as int + 1),
        gen <= SCORE_ONE * (usize::MAX as int + 1),
    ensures
        r == combined_score(act as nat, gen as nat, lang as nat, text as nat),
{
    let wa: u128 = ACTORS_WEIGHT as u128;
    let wg: u128 = GENRES_WEIGHT as u128;
    let wl: u128 = LANG_WEIGHT as u128;
    let wd: u128 = DESC_WEIGHT as u128;
    assert(act * wa + gen * wg + lang * wl + text * wd <= 21 * (SCORE_ONE * (usize::MAX as int + 1))
        + 17 * u64::MAX) by (nonlinear_arith)
        requires
            wa == 12,
            wg == 9,
            wl == 4,
            wd == 13,
            act <= SCORE_ONE * (usize::MAX as int + 1),
            gen <= SCORE_ONE * (usize::MAX as int + 1),
            lang <= u64::MAX,
            text <= u64::MAX,
    ;
    let sum = act * wa + gen * wg + (lang as u128) * wl + (text as u128) * wd;
    sum / ((ACTORS_WEIGHT + GENRES_WEIGHT + LANG_WEIGHT + DESC_WEIGHT) as u128)
}

impl UserProfile {
    /// The score of `item` against this profile, in score units; `relevance` is the text
    /// relevance of its description against the interaction history. A score once computed
    /// is kept and returned until the next invalidation.
    pub fn similarity(&mut self, item: &MovieVector, relevance: u64) -> (r: u128)
        requires
            old(self).wf(),
        ensures
            final(self).wf(),
            old(self).scored(final(self), *item, relevance as nat, r),
    {
        if let Some(v) = self.score_cache.get(&item.uuid) {
            let v = *v;
            proof {
                assert(self.score_cache@ =~= old(self).score_cache@.insert(item.uuid, v));
            }
            v
        } else {
            let ak = actor_keys(&item.actors);
            let gk = genre_keys(&item.genres);
            let act = overlap(&self.actors_rank, self.actors_total, &ak);
            let gen = overlap(&self.genre_rank, self.genres_total, &gk);
            let lang = map_weight(&self.lang_rank, lang_key(item.original_lang));
            let r = combine(act, gen, lang, relevance);
            self.score_cache.insert(item.uuid, r);
            r
        }
    }

    /// Takes in an interaction of weight `w` with `item`: the weight is handed out over its
    /// cast, over its genres, and given whole to its language. Returns whether the drift
    /// forced an invalidation: then the cache is emptied and the queued weight reset, and
    /// the caller rebuilds the text index and saves the profile; otherwise the weight is
    /// queued and the cache kept.
    pub fn insert_movie_interaction(&mut self, item: &MovieVector, w: u64) -> (invalidated: bool)
        requires
            old(self).wf(),
            old(self).profile_weight + w <= u64::MAX,
        ensures
            final(self).wf(),
            old(self).interacted(final(self), *item, w, invalidated),
    {
        let ak = actor_keys(&item.actors);
        let gk = genre_keys(&item.genres);
        proof {
            lemma_spread_unique(self.actors(), ak@, w, ak@.len());
            lemma_spread_unique(self.genres(), gk@, w, gk@.len());
            lemma_add_weight_unique(self.langs(), lang_code(item.original_lang), w);
        }
        distribute(&mut self.actors_rank, &ak, w);
        if ak.len() > 0 {
            self.actors_total = self.actors_total + w;
        }
        distribute(&mut self.genre_rank, &gk, w);
        if gk.len() > 0 {
            self.genres_total = self.genres_total + w;
        }
        let lk = lang_key(item.original_lang);
        proof {
            lemma_weight_le_total(self.langs(), lk);
            lemma_add_weight_total(self.langs(), lk, w);
        }
        map_add(&mut self.lang_rank, lk, w);
        self.langs_total = self.langs_total + w;
        let invalidated = needs_rebuild(self.profile_weight, self.queued_weight, w);
        if invalidated {
            self.queued_weight = 0;
            self.score_cache = HashMap::new();
        } else {
            self.queued_weight = self.queued_weight + w;
        }
        self.profile_weight = self.profile_weight + w;
        invalidated
    }
}

/// No item before position `i` has the uuid of the item at `i`.
pub open spec fn first_seen(s: Seq<MovieVector>, i: int) -> bool {
    forall|j: int| 0 <= j < i ==> #[trigger] s[j].uuid != s[i].uuid
}

/// `out` is `inp` reordered through `perm` (`out[c] == inp[perm[c]]`, each position used
/// once), and items of equal `key` score keep their input order.
pub open spec fn stable_reorder(
    out: Seq<MovieVector>,
    inp: Seq<MovieVector>,
    key: Map<u128, u128>,
    perm: Seq<int>,
) -> bool {
    &&& perm.len() == out.len() == inp.len()
    &&& forall|c: int| 0 <= c < out.len() ==> 0 <= #[trigger] perm[c] < inp.len() && out[c] == inp[perm[c]]
    &&& forall|a: int, b: int|
        0 <= a < out.len() && 0 <= b < out.len() && a != b ==> #[trigger] perm[a] != #[trigger] perm[b]
    &&& forall|a: int, b: int|
        0 <= a < b < out.len() && key[out[a].uuid] == key[out[b].uuid] ==> #[trigger] perm[a]
            < #[trigger] perm[b]
}

/// Where the item at position `c` was before the item at `i` moved to `j` (with `j <= i`).
pub open spec fn moved_from(c: int, i: int, j: int) -> int {
    if c < j {
        c
    } else if c == j {
        i
    } else if c <= i {
        c - 1
    } else {
        c
    }
}

impl UserProfile {
    /// Sorts `inputs` by ascending score (best matches last), equal scores keeping their
    /// order; `relevance[i]` is the text relevance of `inputs[i]`. Every candidate's score
    /// ends up cached, and scores cached before stay as they were.
    pub fn rank(&mut self, inputs: &mut Vec<MovieVector>, relevance: &Vec<u64>)
        requires
            old(self).wf(),
            relevance@.len() == old(inputs)@.len(),
        ensures
            final(self).wf(),
            final(self).same_preferences(old(self)),
            final(inputs)@.to_multiset() == old(inputs)@.to_multiset(),
            keeps_scores(*old(self), *final(self)),
            forall|i: int|
                0 <= i < final(inputs)@.len() ==> #[trigger] final(self).score_cache@.contains_key(
                    final(inputs)@[i].uuid,
                ),
            forall|i: int, j: int|
                #![trigger final(inputs)@[i], final(inputs)@[j]]
                0 <= i < j < final(inputs)@.len() ==> final(self).score_cache@[final(inputs)@[i].uuid]
                    <= final(self).score_cache@[final(inputs)@[j].uuid],
            forall|k: u128| #[trigger]
                final(self).score_cache@.contains_key(k) ==> old(self).score_cache@.contains_key(k)
                    || exists|i: int| 0 <= i < old(inputs)@.len() && #[trigger] old(inputs)@[i].uuid == k,
            exists|perm: Seq<int>|
                stable_reorder(final(inputs)@, old(inputs)@, final(self).score_cache@, perm),
            forall|i: int|
                0 <= i < old(inputs)@.len() && first_seen(old(inputs)@, i)
                    && !old(self).score_cache@.contains_key(#[trigger] old(inputs)@[i].uuid)
                    ==> final(self).score_cache@[old(inputs)@[i].uuid] == old(self).fresh_score(
                    old(inputs)@[i],
                    relevance@[i] as nat,
                ),
    {
        broadcast use vstd::seq_lib::group_to_multiset_ensures;

        let n = inputs.len();
        let mut scores: Vec<u128> = Vec::new();
        let mut i: usize = 0;
        while i < n
            invariant
                n == inputs@.len(),
                inputs@ == old(inputs)@,
                relevance@.len() == n,
                i <= n,
                scores@.len() == i,
                self.wf(),
                self.same_preferences(old(self)),
                forall|k: u128| #[trigger]
                    old(self).score_cache@.contains_key(k) ==> self.score_cache@.contains_key(k)
                        && self.score_cache@[k] == old(self).score_cache@[k],
                forall|j: int|
                    0 <= j < i ==> #[trigger] self.score_cache@.contains_key(inputs@[j].uuid)
                        && self.score_cache@[inputs@[j].uuid] == scores@[j],
                forall|k: u128| #[trigger]
                    self.score_cache@.contains_key(k) ==> old(self).score_cache@.contains_key(k)
                        || exists|j: int| 0 <= j < i && #[trigger] inputs@[j].uuid == k,
                forall|j: int|
                    0 <= j < i && first_seen(inputs@, j) && !old(self).score_cache@.contains_key(
                        #[trigger] inputs@[j].uuid,
                    ) ==> self.score_cache@[inputs@[j].uuid] == old(self).fresh_score(
                        inputs@[j],
                        relevance@[j] as nat,
                    ),
            decreases n - i,
        {
            let ghost before = self.score_cache@;
            let ghost u = inputs@[i as int].uuid;
            let s = self.similarity(&inputs[i], relevance[i]);
            proof {
                if first_seen(inputs@, i as int) && !old(self).score_cache@.contains_key(u) {
                    if before.contains_key(u) {
                        let j = choose|j: int| 0 <= j < i && #[trigger] inputs@[j].uuid == u;
                        assert(inputs@[j].uuid != inputs@[i as int].uuid);
                    }
                }
                assert forall|k: u128| #[trigger]
                    self.score_cache@.contains_key(k) implies old(self).score_cache@.contains_key(k)
                        || exists|j: int| 0 <= j < i + 1 && #[trigger] inputs@[j].uuid == k by {
                    if k == u {
                        assert(inputs@[i as int].uuid == k);
                    } else {
                        assert(before.contains_key(k));
                    }
                }
            }
            scores.push(s);
            proof {
                assert forall|j: int|
                    0 <= j < i + 1 implies #[trigger] self.score_cache@.contains_key(inputs@[j].uuid)
                        && self.score_cache@[inputs@[j].uuid] == scores@[j] by {
                    if j < i {
                        assert(before.contains_key(inputs@[j].uuid));
                        assert(before[inputs@[j].uuid] == scores@[j]);
                    }
                }
            }
            i = i + 1;
        }
        let ghost cache1 = self.score_cache@;
        assert forall|j: int| 0 <= j < n implies #[trigger] self.score_cache@.contains_key(
            inputs@[j].uuid,
        ) && self.score_cache@[inputs@[j].uuid] == scores@[j] by {
            assert(self.score_cache@.contains_key(inputs@[j].uuid));
        }
        let ghost mut perm: Seq<int> = Seq::new(n as nat, |c: int| c);
        let mut i: usize = 1;
        while i < n
            invariant
                perm.len() == n,
                inputs@.len() == old(inputs)@.len(),
                forall|c: int|
                    0 <= c < n ==> 0 <= #[trigger] perm[c] < n && inputs@[c] == old(inputs)@[perm[c]],
                forall|a: int, b: int|
                    0 <= a < n && 0 <= b < n && a != b ==> #[trigger] perm[a] != #[trigger] perm[b],
                forall|c: int| 0 <= c < i && c < n ==> #[trigger] perm[c] < i,
                forall|c: int| i <= c < n ==> #[trigger] perm[c] == c,
                forall|a: int, b: int|
                    0 <= a < b < i && b < n && scores@[a] == scores@[b] ==> #[trigger] perm[a]
                        < #[trigger] perm[b],
                n == inputs@.len(),
                n == scores@.len(),
                1 <= i,
                i <= n || n == 0,
                inputs@.to_multiset() == old(inputs)@.to_multiset(),
                self.score_cache@ == cache1,
                forall|j: int|
                    0 <= j < n ==> #[trigger] self.score_cache@.contains_key(inputs@[j].uuid)
                        && self.score_cache@[inputs@[j].uuid] == scores@[j],
                forall|a: int, b: int| 0 <= a < b < i && b < n ==> scores@[a] <= scores@[b],
            decreases n - i,
        {
            let ghost pre_in = inputs@;
            let ghost pre_sc = scores@;
            let ghost pre_perm = perm;
            let x = inputs.remove(i);
            let sx = scores.remove(i);
            let mut j: usize = i;
            while j > 0 && scores[j - 1] > sx
                invariant
                    j <= i,
                    i < n,
                    scores@.len() == n - 1,
                    inputs@.len() == n - 1,
                    pre_sc.len() == n,
                    pre_in.len() == n,
                    scores@ == pre_sc.remove(i as int),
                    inputs@ == pre_in.remove(i as int),
                    x == pre_in[i as int],
                    sx == pre_sc[i as int],
                    forall|c: int|
                        0 <= c < n ==> #[trigger] self.score_cache@.contains_key(pre_in[c].uuid)
                            && self.score_cache@[pre_in[c].uuid] == pre_sc[c],
                    forall|a: int, b: int| 0 <= a < b < i ==> scores@[a] <= scores@[b],
                    forall|c: int| j <= c < i ==> scores@[c] > sx,
                decreases j,
            {
                j = j - 1;
            }
            let ghost before = scores@;
            let ghost before_in = inputs@;
            inputs.insert(j, x);
            scores.insert(j, sx);
            proof {
                perm = pre_perm.remove(i as int).insert(j as int, i as int);
                assert forall|c: int| 0 <= c < n implies perm[c] == pre_perm[moved_from(
                    c,
                    i as int,
                    j as int,
                )] && inputs@[c] == pre_in[moved_from(c, i as int, j as int)] && scores@[c]
                    == pre_sc[moved_from(c, i as int, j as int)] by {}
                assert forall|c: int| 0 <= c < n implies 0 <= #[trigger] perm[c] < n && inputs@[c]
                    == old(inputs)@[perm[c]] by {
                    let k = moved_from(c, i as int, j as int);
                    assert(pre_perm[k] == perm[c]);
                }
                assert forall|a: int, b: int|
                    0 <= a < n && 0 <= b < n && a != b implies #[trigger] perm[a] != #[trigger] perm[b] by {
                    let ka = moved_from(a, i as int, j as int);
                    let kb = moved_from(b, i as int, j as int);
                    assert(ka != kb);
                    assert(pre_perm[ka] != pre_perm[kb]);
                }
                assert forall|c: int| 0 <= c < i + 1 && c < n implies #[trigger] perm[c] < i + 1 by {
                    let k = moved_from(c, i as int, j as int);
                    assert(pre_perm[k] == perm[c]);
                    if k < i {
                        assert(pre_perm[k] < i);
                    } else {
                        assert(pre_perm[k] == k);
                    }
                }
                assert forall|c: int| i + 1 <= c < n implies #[trigger] perm[c] == c by {
                    assert(pre_perm[c] == perm[c]);
                }
                assert forall|a: int, b: int|
                    0 <= a < b < i + 1 && b < n && scores@[a] == scores@[b] implies #[trigger] perm[a]
                        < #[trigger] perm[b] by {
                    let ka = moved_from(a, i as int, j as int);
                    let kb = moved_from(b, i as int, j as int);
                    assert(perm[a] == pre_perm[ka]);
                    assert(perm[b] == pre_perm[kb]);
                    if a == j {
                        assert(before[b - 1] > sx);
                    } else if b == j {
                        assert(pre_perm[ka] < i);
                        assert(pre_perm[i as int] == i);
                    } else {
                        assert(ka < kb && kb < i);
                    }
                }
                assert(inputs@.to_multiset() =~= pre_in.to_multiset()) by {
                    vstd::seq_lib::to_multiset_remove(pre_in, i as int);
                    vstd::seq_lib::to_multiset_insert(before_in, j as int, x);
                    assert(pre_in.to_multiset().count(x) > 0) by {
                        vstd::seq_lib::to_multiset_contains(pre_in, x);
                        assert(pre_in[i as int] == x);
                    }
                }
                assert forall|c: int| 0 <= c < n implies #[trigger] self.score_cache@.contains_key(
                    inputs@[c].uuid,
                ) && self.score_cache@[inputs@[c].uuid] == scores@[c] by {
                    let k = if c < j {
                        c
                    } else if c == j {
                        i as int
                    } else if c - 1 < i {
                        c - 1
                    } else {
                        c
                    };
                    assert(inputs@[c] == pre_in[k]);
                    assert(scores@[c] == pre_sc[k]);
                    assert(self.score_cache@.contains_key(pre_in[k].uuid));
                }
                assert forall|a: int, b: int| 0 <= a < b < i + 1 && b < n implies scores@[a]
                    <= scores@[b] by {
                    if j > 0 && a < j {
                        assert(before[j - 1] <= sx);
                    }
                }
            }
            i = i + 1;
        }
        assert forall|a: int, b: int|
            #![trigger inputs@[a], inputs@[b]]
            0 <= a < b < n implies self.score_cache@[inputs@[a].uuid]
                <= self.score_cache@[inputs@[b].uuid] by {
            assert(self.score_cache@.contains_key(inputs@[a].uuid));
            assert(self.score_cache@.contains_key(inputs@[b].uuid));
        }
        assert forall|a: int, b: int|
            0 <= a < b < n && self.score_cache@[inputs@[a].uuid] == self.score_cache@[inputs@[
                b
            ].uuid] implies #[trigger] perm[a] < #[trigger] perm[b] by {
            assert(self.score_cache@.contains_key(inputs@[a].uuid));
            assert(self.score_cache@.contains_key(inputs@[b].uuid));
        }
        assert(stable_reorder(inputs@, old(inputs)@, self.score_cache@, perm));
    }
}

/// Scoring an item twice with no interaction in between gives the same score both times,
/// whatever relevance is handed in the second time, and the second call leaves the cache
/// as the first one left it.
pub proof fn lemma_memoized(
    p0: UserProfile,
    p1: UserProfile,
    p2: UserProfile,
    item: MovieVector,
    rel1: nat,
    rel2: nat,
    r1: u128,
    r2: u128,
)
    requires
        p0.scored(&p1, item, rel1, r1),
        p1.scored(&p2, item, rel2, r2),
    ensures
        r1 == r2,
        p2.score_cache@ == p1.score_cache@,
{
    assert(p2.score_cache@ =~= p1.score_cache@);
}

/// A score once computed is returned unchanged after an interaction that does not force an
/// invalidation, although the preference weights changed.
pub proof fn lemma_memo_survives_small_interaction(
    p0: UserProfile,
    p1: UserProfile,
    p2: UserProfile,
    p3: UserProfile,
    x: MovieVector,
    y: MovieVector,
    w: u64,
    rel1: nat,
    rel2: nat,
    r1: u128,
    r2: u128,
)
    requires
        p0.scored(&p1, x, rel1, r1),
        p1.interacted(&p2, y, w, false),
        p2.scored(&p3, x, rel2, r2),
    ensures
        r1 == r2,
{
}

/// Every score cached in `p` is still cached, unchanged, in `q`.
pub open spec fn keeps_scores(p: UserProfile, q: UserProfile) -> bool {
    forall|k: u128| #[trigger]
        p.score_cache@.contains_key(k) ==> q.score_cache@.contains_key(k) && q.score_cache@[k]
            == p.score_cache@[k]
}

/// Scoring an item keeps every score cached before.
pub proof fn lemma_scoring_keeps_scores(p: UserProfile, q: UserProfile, x: MovieVector, rel: nat, r: u128)
    requires
        p.scored(&q, x, rel, r),
    ensures
        keeps_scores(p, q),
{
}

/// Calls that each keep the cached scores keep them in sequence.
pub proof fn lemma_keeps_scores_chain(p: UserProfile, q: UserProfile, t: UserProfile)
    requires
        keeps_scores(p, q),
        keeps_scores(q, t),
    ensures
        keeps_scores(p, t),
{
}

/// A score once computed is returned unchanged after any calls that keep the cached scores
/// (scoring other items, ranking batches: see `rank`'s contract), whatever relevance is
/// handed in the second time.
pub proof fn lemma_memo_survives_scoring(
    p0: UserProfile,
    p1: UserProfile,
    p2: UserProfile,
    p3: UserProfile,
    x: MovieVector,
    rel1: nat,
    rel2: nat,
    r1: u128,
    r2: u128,
)
    requires
        p0.scored(&p1, x, rel1, r1),
        keeps_scores(p1, p2),
        p2.scored(&p3, x, rel2, r2),
    ensures
        r1 == r2,
{
    assert(p1.score_cache@.contains_key(x.uuid));
}

/// An invalidating interaction forgets every score: the next one is computed afresh.
pub proof fn lemma_invalidation_forgets(
    p1: UserProfile,
    p2: UserProfile,
    p3: UserProfile,
    x: MovieVector,
    y: MovieVector,
    w: u64,
    rel: nat,
    r: u128,
)
    requires
        p1.interacted(&p2, y, w, true),
        p2.scored(&p3, x, rel, r),
    ensures
        r == p2.fresh_score(x, rel),
{
}

/// The weighted mean stays within [0, 1] (in score units) when every sub-score does.
pub proof fn lemma_combined_bounded(act: nat, gen: nat, lang: nat, text: nat)
    requires
        act <= SCORE_ONE,
        gen <= SCORE_ONE,
        lang <= SCORE_ONE,
        text <= SCORE_ONE,
    ensures
        combined_score(act, gen, lang, text) <= SCORE_ONE,
{
    let sum = act * ACTORS_WEIGHT as nat + gen * GENRES_WEIGHT as nat + lang * LANG_WEIGHT as nat
        + text * DESC_WEIGHT as nat;
    assert(sum <= 38 * SCORE_ONE) by (nonlinear_arith)
        requires
            sum == act * 12 + gen * 9 + lang * 4 + text * 13,
            act <= SCORE_ONE,
            gen <= SCORE_ONE,
            lang <= SCORE_ONE,
            text <= SCORE_ONE,
    ;
    assert(sum / 38 <= SCORE_ONE) by (nonlinear_arith)
        requires
            sum <= 38 * SCORE_ONE,
    ;
}

/// A profile's fresh score for an item lies within [0, 1] (in score units) whenever its
/// sub-scores do: the cast and genre overlaps, the language weight and the text relevance.
pub proof fn lemma_score_bounded(p: UserProfile, item: MovieVector, relevance: nat)
    requires
        overlap_score(p.actors(), p.actors_total as nat, actor_ids(item.actors@)) <= SCORE_ONE,
        overlap_score(p.genres(), p.genres_total as nat, genre_codes(item.genres@)) <= SCORE_ONE,
        lang_score(p.langs(), lang_code(item.original_lang)) <= SCORE_ONE,
        relevance <= SCORE_ONE,
    ensures
        p.fresh_score(item, relevance) <= SCORE_ONE,
{
    lemma_combined_bounded(
        overlap_score(p.actors(), p.actors_total as nat, actor_ids(item.actors@)),
        overlap_score(p.genres(), p.genres_total as nat, genre_codes(item.genres@)),
        lang_score(p.langs(), lang_code(item.original_lang)),
        relevance,
    );
}

} // verus!
