use lot_of_cars::state::GameState;

#[test]
fn session_starts_loading() {
    assert_eq!(GameState::default(), GameState::AssetLoading);
    assert!(!GameState::default().runs_simulation());
}

#[test]
fn loading_leads_to_play() {
    assert_eq!(GameState::AssetLoading.assets_loaded(), GameState::Play);
    assert_eq!(GameState::Play.assets_loaded(), GameState::Play);
    assert!(GameState::Play.runs_simulation());
}
