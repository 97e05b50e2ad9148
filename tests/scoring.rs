use wassimovie::features::{
    _inter_cardinality, genre_key, lang_key, similarity, ActorVector, Genre, Language, MovieVector,
    SCORE_ONE,
};
use wassimovie::profile::{combine, needs_rebuild, UserProfile};
use wassimovie::text_score::{blend, neighbour_count};
use wassimovie::weight_map::WeightMap;

fn movie(uuid: u128, actors: &[u128], genres: &[Genre], lang: Language) -> MovieVector {
    MovieVector {
        uuid,
        actors: actors.iter().map(|&id| ActorVector { id, popularity: 1 }).collect(),
        genres: genres.to_vec(),
        original_lang: lang,
        popularity: 10,
        title: format!("movie {}", uuid),
        vote_avg: 7,
        vote_count: 100,
    }
}

fn weights(m: &WeightMap, keys: &[u128]) -> Vec<u64> {
    keys.iter().map(|&k| m.weight(k)).collect()
}

#[test]
fn first_interaction_forces_rebuild_then_scores_fully() {
    let mut p = UserProfile::new();
    let a = movie(1, &[11], &[Genre::Drama], Language::English);
    let b = movie(2, &[], &[], Language::English);
    // weights in score units: 10.0 and 0.1
    assert!(p.insert_movie_interaction(&a, 10 * SCORE_ONE));
    assert_eq!(p.profile_weight, 10 * SCORE_ONE);
    assert_eq!(p.queued_weight, 0);
    assert!(p.score_cache.is_empty());
    // |(10 - (0 + 0.1)) / 10| = 0.99 > 0.05: the drift rule rebuilds again
    assert!(p.insert_movie_interaction(&b, SCORE_ONE / 10));
    assert_eq!(p.queued_weight, 0);
    assert_eq!(p.profile_weight, 10 * SCORE_ONE + SCORE_ONE / 10);
    let s = p.similarity(&a, 0);
    // cast 1, genre 1, language weight 10.1, text 0
    let one = SCORE_ONE as u128;
    assert_eq!(s, (12 * one + 9 * one + 4 * 10_100_000) / 38);
}

#[test]
fn small_drift_queues_weight_and_keeps_cache() {
    let mut p = UserProfile::new();
    let a = movie(1, &[11], &[Genre::Drama], Language::English);
    assert!(p.insert_movie_interaction(&a, 100));
    // queued 0 + 96 against 100: |4| * 20 = 80 <= 100, no rebuild
    let first = p.similarity(&a, 0);
    assert!(!p.insert_movie_interaction(&a, 96));
    assert_eq!(p.queued_weight, 96);
    assert_eq!(p.profile_weight, 196);
    assert_eq!(p.score_cache.get(&1), Some(&first));
}

#[test]
fn similarity_is_memoized() {
    let mut p = UserProfile::new();
    let a = movie(1, &[11, 12], &[Genre::Drama, Genre::Crime], Language::French);
    p.insert_movie_interaction(&a, 30);
    let x = movie(5, &[11], &[Genre::Comedy], Language::French);
    let first = p.similarity(&x, 500_000);
    let second = p.similarity(&x, 0);
    assert_eq!(first, second);
}

#[test]
fn weight_is_conserved_over_cast_and_genres() {
    let mut p = UserProfile::new();
    let a = movie(1, &[11, 12, 13], &[Genre::Drama, Genre::Comedy], Language::English);
    p.insert_movie_interaction(&a, 10);
    let w = weights(&p.actors_rank, &[11, 12, 13]);
    assert_eq!(w, vec![4, 3, 3]);
    assert_eq!(w.iter().sum::<u64>(), 10);
    let g = weights(&p.genre_rank, &[genre_key(Genre::Drama), genre_key(Genre::Comedy)]);
    assert_eq!(g, vec![5, 5]);
    assert_eq!(p.lang_rank.weight(lang_key(Language::English)), 10);
    assert_eq!(p.actors_total, 10);
    assert_eq!(p.genres_total, 10);
}

#[test]
fn repeated_interactions_accumulate() {
    let mut p = UserProfile::new();
    let a = movie(1, &[11], &[Genre::Drama], Language::English);
    let b = movie(2, &[11, 12], &[], Language::French);
    p.insert_movie_interaction(&a, 7);
    p.insert_movie_interaction(&b, 4);
    assert_eq!(weights(&p.actors_rank, &[11, 12, 99]), vec![9, 2, 0]);
    assert_eq!(p.actors_rank.len(), 2);
    assert_eq!(p.genre_rank.len(), 1);
    assert_eq!(p.genres_total, 7);
    assert_eq!(p.lang_rank.weight(lang_key(Language::French)), 4);
    assert_eq!(p.profile_weight, 11);
}

#[test]
fn empty_lists_leave_their_maps_alone() {
    let mut p = UserProfile::new();
    let a = movie(1, &[], &[], Language::English);
    p.insert_movie_interaction(&a, 8);
    assert_eq!(p.actors_rank.len(), 0);
    assert_eq!(p.genre_rank.len(), 0);
    assert_eq!(p.actors_total, 0);
    assert_eq!(p.langs_total, 8);
}

#[test]
fn rank_sorts_ascending_by_cached_score() {
    let mut p = UserProfile::new();
    let c = movie(3, &[], &[], Language::English);
    let d = movie(4, &[], &[], Language::English);
    p.score_cache.insert(3, 300_000);
    p.score_cache.insert(4, 700_000);
    let mut batch = vec![d.clone(), c.clone()];
    p.rank(&mut batch, &vec![0, 0]);
    assert_eq!(batch.iter().map(|m| m.uuid).collect::<Vec<_>>(), vec![3, 4]);
    let mut batch = vec![c, d];
    p.rank(&mut batch, &vec![0, 0]);
    assert_eq!(batch.iter().map(|m| m.uuid).collect::<Vec<_>>(), vec![3, 4]);
}

#[test]
fn rank_fills_cache_and_tolerates_duplicates() {
    let mut p = UserProfile::new();
    let a = movie(1, &[11], &[Genre::Drama], Language::English);
    p.insert_movie_interaction(&a, 10);
    let good = movie(7, &[11], &[Genre::Drama], Language::English);
    let bad = movie(8, &[], &[Genre::Crime], Language::French);
    let mut batch = vec![good.clone(), bad.clone(), good.clone()];
    p.rank(&mut batch, &vec![0, 0, 0]);
    assert_eq!(batch.iter().map(|m| m.uuid).collect::<Vec<_>>(), vec![8, 7, 7]);
    assert_eq!(p.score_cache.get(&8), Some(&0));
    // cast 1, genre 1, language weight 10 (in score units), text 0
    assert_eq!(p.score_cache.get(&7), Some(&((21 * SCORE_ONE as u128 + 4 * 10) / 38)));
}

#[test]
fn rebuild_rule() {
    assert!(needs_rebuild(0, 0, 5));
    assert!(needs_rebuild(100, 0, 1));
    assert!(!needs_rebuild(100, 96, 0));
    assert!(!needs_rebuild(100, 95, 0));
    assert!(needs_rebuild(100, 94, 0));
    assert!(needs_rebuild(100, 50, 56));
}

#[test]
fn combined_score_stays_in_unit_range() {
    let one = SCORE_ONE as u128;
    assert_eq!(combine(one, one, SCORE_ONE, SCORE_ONE), one);
    assert_eq!(combine(0, 0, 0, 0), 0);
    assert_eq!(combine(0, 0, 0, SCORE_ONE), 13 * one / 38);
    // one interaction of weight 1.0: every sub-score is 1
    let mut p = UserProfile::new();
    let a = movie(1, &[11], &[Genre::Drama], Language::English);
    p.insert_movie_interaction(&a, SCORE_ONE);
    assert_eq!(p.similarity(&a, SCORE_ONE), one);
}

#[test]
fn repeated_cast_ids_count_each_time() {
    let mut p = UserProfile::new();
    let a = movie(1, &[11, 12], &[Genre::Drama], Language::English);
    p.insert_movie_interaction(&a, 9);
    let s = p.similarity(&movie(2, &[11, 12, 11], &[Genre::Drama], Language::English), SCORE_ONE);
    // cast (5 + 4 + 5) / 9, genre 1, language weight 9, text 1
    let one = SCORE_ONE as u128;
    assert_eq!(s, (12 * (one * 14 / 9) + 9 * one + 4 * 9 + 13 * one) / 38);
}

#[test]
fn language_match_is_the_accumulated_weight() {
    let mut p = UserProfile::new();
    p.insert_movie_interaction(&movie(1, &[], &[], Language::French), 3 * SCORE_ONE);
    p.insert_movie_interaction(&movie(2, &[], &[], Language::French), 2 * SCORE_ONE);
    let s = p.similarity(&movie(3, &[], &[], Language::French), 0);
    assert_eq!(s, 4 * 5 * SCORE_ONE as u128 / 38);
    assert_eq!(p.similarity(&movie(4, &[], &[], Language::English), 0), 0);
}

#[test]
fn partial_overlap_scores() {
    let mut p = UserProfile::new();
    p.insert_movie_interaction(&movie(1, &[11, 12], &[Genre::Drama, Genre::Crime], Language::English), 20);
    p.insert_movie_interaction(&movie(2, &[], &[], Language::French), 20);
    let s = p.similarity(&movie(3, &[12], &[Genre::Crime], Language::French), 0);
    // cast 10/20, genre 10/20, language weight 20, text 0
    let half = SCORE_ONE as u128 / 2;
    assert_eq!(s, (12 * half + 9 * half + 4 * 20) / 38);
}

#[test]
fn empty_space_evaluates_to_zero() {
    assert_eq!(blend(0, 0), 0);
    assert_eq!(blend(0, 1000), 0);
    // 61 * 1000 * 1000 / (36 * 1000 + 25 * 1000) = 1000
    assert_eq!(blend(1000, 1000), 1000);
    assert_eq!(blend(2000, 1000), 61 * 2000 * 1000 / (36 * 1000 + 25 * 2000));
}

#[test]
fn neighbour_count_is_a_rounded_fifth() {
    assert_eq!(neighbour_count(0), 1);
    assert_eq!(neighbour_count(2), 1);
    assert_eq!(neighbour_count(10), 2);
    assert_eq!(neighbour_count(12), 2);
    assert_eq!(neighbour_count(13), 3);
}

#[test]
fn inter_cardinality_of_sorted_lists() {
    assert_eq!(_inter_cardinality(&[1, 2, 3], &[2, 3, 4]), 2);
    assert_eq!(_inter_cardinality(&[], &[2, 3, 4]), 0);
    assert_eq!(_inter_cardinality(&[1, 5], &[2, 3, 4]), 0);
    assert_eq!(_inter_cardinality(&[4, 5], &[1, 4]), 1);
}

#[test]
fn movie_to_movie_similarity() {
    let a = movie(1, &[1, 2], &[Genre::Drama, Genre::Comedy], Language::English);
    let mut b = movie(2, &[2, 3], &[Genre::Comedy], Language::English);
    b.popularity = 5;
    // popularity 5/10, cast 1/3, genres 1/2, language 1
    let pop = SCORE_ONE as u128 / 2;
    let act = SCORE_ONE as u128 / 3;
    let gen = SCORE_ONE as u128 / 2;
    let lang = SCORE_ONE as u128;
    assert_eq!(similarity(a, b), (3 * pop + 12 * act + 9 * gen + 4 * lang) / 41);
}

#[test]
fn saved_state_restores_the_same_scores() {
    let mut p = UserProfile::new();
    p.insert_movie_interaction(&movie(1, &[11, 12], &[Genre::Drama], Language::English), 20);
    p.insert_movie_interaction(&movie(2, &[12], &[Genre::Crime], Language::French), 5);
    let a = p.actors_rank.entries();
    assert_eq!(a, vec![(11, 10), (12, 15)]);
    let g = p.genre_rank.entries();
    let l = p.lang_rank.entries();
    let mut q = UserProfile::restore(&a, &g, &l, p.queued_weight, p.profile_weight).unwrap();
    assert!(q.score_cache.is_empty());
    assert_eq!(q.actors_total, 25);
    let x = movie(9, &[12], &[Genre::Drama], Language::English);
    assert_eq!(q.similarity(&x, 100), p.similarity(&x, 100));
}

#[test]
fn inconsistent_saved_state_is_rejected() {
    let l = vec![(lang_key(Language::English), 10)];
    assert!(UserProfile::restore(&vec![], &vec![], &l, 0, 10).is_some());
    // language weights must equal the absorbed weight
    assert!(UserProfile::restore(&vec![], &vec![], &l, 0, 11).is_none());
    // cast weights cannot exceed it
    assert!(UserProfile::restore(&vec![(1, 11)], &vec![], &l, 0, 10).is_none());
    // nor can the queued weight
    assert!(UserProfile::restore(&vec![], &vec![], &l, 11, 10).is_none());
    // weights that overflow
    assert!(UserProfile::restore(&vec![(1, u64::MAX), (2, 1)], &vec![], &l, 0, 10).is_none());
}

#[test]
fn repeated_keys_merge_when_rebuilt() {
    let (m, t) = WeightMap::from_entries(&vec![(5, 2), (6, 1), (5, 3)]).unwrap();
    assert_eq!(t, 6);
    assert_eq!(m.entries(), vec![(5, 5), (6, 1)]);
    assert!(WeightMap::from_entries(&vec![(5, u64::MAX), (6, 1)]).is_none());
}

#[test]
fn rank_keeps_the_order_of_equal_scores() {
    let mut p = UserProfile::new();
    let mut batch = vec![
        movie(5, &[], &[], Language::English),
        movie(6, &[], &[], Language::English),
        movie(7, &[], &[], Language::English),
    ];
    p.rank(&mut batch, &vec![100, 100, 0]);
    assert_eq!(batch.iter().map(|m| m.uuid).collect::<Vec<_>>(), vec![7, 5, 6]);
}

#[test]
fn rebuild_rule_at_the_largest_weights() {
    assert!(needs_rebuild(u64::MAX, u64::MAX, u64::MAX));
    assert!(!needs_rebuild(u64::MAX, u64::MAX - 1, 1));
    assert!(!needs_rebuild(u64::MAX, 0, u64::MAX));
}
