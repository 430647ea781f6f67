use fuzzy_finder::matcher::MatcherEngine;
use fuzzy_finder::model::Model;
use fuzzy_finder::pool::CandidatePool;

fn chars(s: &str) -> Vec<char> {
    s.chars().collect()
}

fn run_pass(engine: &mut MatcherEngine, pool: &CandidatePool, model: &mut Model, query: &str) {
    // query change: new generation, matcher restarts
    let generation = model.current_generation() + 1;
    engine.reset_query(chars(query), generation);
    // start-of-pass handshake: the model clears displayed matches and
    // acknowledges before any new-generation match is delivered
    model.clear_items(generation);
    engine.ack_start();
    let mut processed = 0;
    while processed < pool.len() {
        if let Some(item) = engine.scan_next(pool) {
            model.push_item(item);
        }
        processed += 1;
    }
}

fn ranked_texts(model: &Model) -> Vec<String> {
    let mut r = Vec::new();
    for i in 0..model.num_ranked() {
        r.push(model.ranked_item(i).text.iter().collect());
    }
    r
}

#[test]
fn case_insensitive_pass_ranks_shorter_text_first() {
    let mut pool = CandidatePool::new();
    pool.append(chars("apple"));
    pool.append(chars("application"));
    pool.append(chars("banana"));
    let mut engine = MatcherEngine::new();
    let mut model = Model::new();
    // "ap" holds no uppercase letter: case-insensitive matching;
    // "banana" has no 'p' and is excluded; "apple" and "application"
    // tie on score and the shorter text wins
    run_pass(&mut engine, &pool, &mut model, "ap");
    assert_eq!(
        ranked_texts(&model),
        vec!["apple".to_string(), "application".to_string()]
    );
    assert_eq!(model.ranked_item(0).score, model.ranked_item(1).score);
    let (matched, total, processed) = engine.progress(&pool);
    assert_eq!((matched, total, processed), (2, 3, 3));
}

#[test]
fn uppercase_query_is_case_sensitive() {
    let mut pool = CandidatePool::new();
    pool.append(chars("apple"));
    pool.append(chars("Application"));
    let mut engine = MatcherEngine::new();
    let mut model = Model::new();
    // "App" holds an uppercase letter: "apple" has no uppercase 'A'
    run_pass(&mut engine, &pool, &mut model, "App");
    assert_eq!(ranked_texts(&model), vec!["Application".to_string()]);
}

#[test]
fn superseded_pass_leaves_no_stale_match() {
    let mut pool = CandidatePool::new();
    pool.append(chars("alpha"));
    pool.append(chars("beta"));
    let mut engine = MatcherEngine::new();
    let mut model = Model::new();
    // a first pass runs partially: one match of generation 1 is pending
    engine.reset_query(chars("a"), 1);
    model.clear_items(1);
    engine.ack_start();
    let pending = engine.scan_next(&pool).unwrap();
    // the query changes before the pending match is delivered
    engine.reset_query(chars("b"), 2);
    model.clear_items(2);
    engine.ack_start();
    // the late delivery of generation 1 is discarded
    model.push_item(pending);
    assert_eq!(model.num_ranked(), 0);
    loop {
        let (_, total, processed) = engine.progress(&pool);
        if processed >= total {
            break;
        }
        if let Some(item) = engine.scan_next(&pool) {
            model.push_item(item);
        }
    }
    assert_eq!(ranked_texts(&model), vec!["beta".to_string()]);
    for i in 0..model.num_ranked() {
        assert_eq!(model.ranked_item(i).generation, 2);
    }
}

#[test]
fn batch_scan_delivers_matches_in_pool_order() {
    let mut pool = CandidatePool::new();
    pool.append(chars("alpha"));
    pool.append(chars("bravo"));
    pool.append(chars("delta"));
    pool.append(chars("gamma"));
    let mut engine = MatcherEngine::new();
    engine.reset_query(chars("a"), 1);
    engine.ack_start();
    // a bounded batch processes exactly that many candidates
    let first = engine.scan_batch(&pool, 2);
    let (matched, total, processed) = engine.progress(&pool);
    assert_eq!((matched, total, processed), (2, 4, 2));
    assert_eq!(first.len(), 2);
    assert_eq!(first[0].index, 0);
    assert_eq!(first[1].index, 1);
    // the next batch resumes at the cursor; delivery is in pool order
    let rest = engine.scan_batch(&pool, 100);
    let indices: Vec<usize> = rest.iter().map(|m| m.index).collect();
    assert_eq!(indices, vec![2, 3]);
    let (matched, total, processed) = engine.progress(&pool);
    assert_eq!((matched, total, processed), (4, 4, 4));
}

#[test]
fn growing_pool_resumes_scanning() {
    let mut pool = CandidatePool::new();
    pool.append(chars("one"));
    let mut engine = MatcherEngine::new();
    let mut model = Model::new();
    run_pass(&mut engine, &pool, &mut model, "o");
    assert_eq!(ranked_texts(&model), vec!["one".to_string()]);
    // the producer appends more candidates; a new-item signal wakes the
    // matcher, which resumes from its cursor without rescanning
    pool.append(chars("two"));
    pool.append(chars("four"));
    engine.wake();
    loop {
        let (_, total, processed) = engine.progress(&pool);
        if processed >= total {
            break;
        }
        if let Some(item) = engine.scan_next(&pool) {
            model.push_item(item);
        }
    }
    // "one" scores a word-boundary bonus; "two" and "four" tie and the
    // shorter text comes first
    assert_eq!(
        ranked_texts(&model),
        vec!["one".to_string(), "two".to_string(), "four".to_string()]
    );
}
