use playlist_aggregator::pages::Paged;
use playlist_aggregator::resolve::{
    is_affirmative, resolve_with_inputs, PlaylistHeader, PlaylistIndex, ResolveDecision,
};

fn header(name: &str, id: &str) -> PlaylistHeader {
    PlaylistHeader { name: name.to_string(), id: id.to_string() }
}

fn index_of(headers: Vec<Vec<PlaylistHeader>>) -> PlaylistIndex {
    let mut listing = Paged::new(headers);
    PlaylistIndex::build(&mut listing)
}

fn strings(words: &[&str]) -> Vec<String> {
    words.iter().map(|w| w.to_string()).collect()
}

#[test]
fn affirmative_answers_are_y_and_yes() {
    assert!(is_affirmative(&"y".to_string()));
    assert!(is_affirmative(&"yes".to_string()));
    assert!(!is_affirmative(&"n".to_string()));
    assert!(!is_affirmative(&"no".to_string()));
    assert!(!is_affirmative(&"".to_string()));
    assert!(!is_affirmative(&"yeah".to_string()));
}

#[test]
fn colliding_name_with_overwrite_reuses_the_existing_playlist() {
    let idx = index_of(vec![vec![header("road trip", "id1")]]);
    let decision = resolve_with_inputs(&idx, &strings(&["road trip", "y"]));
    match decision {
        Some(ResolveDecision::Overwrite { id, name }) => {
            assert_eq!(id, "id1");
            assert_eq!(name, "road trip");
        }
        other => panic!("expected an overwrite decision, got {:?}", other.is_some()),
    }
}

#[test]
fn declined_overwrite_reprompts_and_creates_under_the_new_name() {
    let idx = index_of(vec![vec![header("road trip", "id1")]]);
    let decision = resolve_with_inputs(&idx, &strings(&["road trip", "n", "summer", "y"]));
    match decision {
        Some(ResolveDecision::Create { name, public }) => {
            assert_eq!(name, "summer");
            assert!(public);
        }
        other => panic!("expected a create decision, got {:?}", other.is_some()),
    }
}

#[test]
fn free_name_creates_with_chosen_visibility() {
    let idx = index_of(vec![vec![header("road trip", "id1")]]);
    let decision = resolve_with_inputs(&idx, &strings(&["beach", "n"]));
    match decision {
        Some(ResolveDecision::Create { name, public }) => {
            assert_eq!(name, "beach");
            assert!(!public);
        }
        other => panic!("expected a create decision, got {:?}", other.is_some()),
    }
}

#[test]
fn unfinished_dialogue_yields_no_decision() {
    let idx = index_of(vec![vec![header("road trip", "id1")]]);
    assert!(resolve_with_inputs(&idx, &strings(&[])).is_none());
    assert!(resolve_with_inputs(&idx, &strings(&["road trip"])).is_none());
    assert!(resolve_with_inputs(&idx, &strings(&["road trip", "n"])).is_none());
}

#[test]
fn collision_detection_is_case_insensitive() {
    // The index keys names by their case-normalized form: a playlist listed
    // as "Road Trip" collides with the normalized request "road trip".
    // Were names kept raw, this lookup would find nothing.
    let idx = index_of(vec![vec![header("Road Trip", "id1")]]);
    match idx.lookup(&"road trip".to_string()) {
        Some(id) => assert_eq!(id, "id1"),
        None => panic!("expected the case-variant name to resolve"),
    }
    let decision = resolve_with_inputs(&idx, &strings(&["road trip", "y"]));
    match decision {
        Some(ResolveDecision::Overwrite { id, name }) => {
            assert_eq!(id, "id1");
            assert_eq!(name, "road trip");
        }
        other => panic!("expected an overwrite decision, got {:?}", other.is_some()),
    }
}

#[test]
fn duplicate_names_collide_across_casings() {
    // Two listings whose names differ only in case share one index key, so
    // the later binding wins even across casings.
    let idx = index_of(vec![vec![header("MIX", "early"), header("mix", "late")]]);
    match idx.lookup(&"Mix".to_string()) {
        Some(id) => assert_eq!(id, "late"),
        None => panic!("expected the name to resolve"),
    }
}

#[test]
fn later_binding_wins_under_a_duplicated_name() {
    let idx = index_of(vec![
        vec![header("mix", "early"), header("other", "x")],
        vec![header("mix", "late")],
    ]);
    match idx.lookup(&"mix".to_string()) {
        Some(id) => assert_eq!(id, "late"),
        None => panic!("expected the name to resolve"),
    }
    assert!(idx.lookup(&"absent".to_string()).is_none());
}
