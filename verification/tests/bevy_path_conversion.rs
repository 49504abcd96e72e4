use std::path::PathBuf;
use task_masker::map::tilemap::to_bevy_path;

fn components_of(path: &PathBuf) -> Vec<String> {
    path.iter().map(|part| part.to_string_lossy().into_owned()).collect()
}

#[test]
fn path_with_assets_trimmed() {
    // Given
    let input_path =
        PathBuf::from("/Users/divark/repos/task_masker/assets/environments/maps/main.tmx");
    // When
    let actual_path: PathBuf = to_bevy_path(components_of(&input_path)).into_iter().collect();

    // Then
    let expected_path = PathBuf::from("environments/maps/main.tmx");
    assert_eq!(expected_path, actual_path);
}

#[test]
fn path_without_assets_not_trimmed() {
    // Given
    let input_path =
        PathBuf::from("/Users/divark/repos/task_masker/tests/test-assets/environments/map.tmx");
    // When
    let actual_path: PathBuf = to_bevy_path(components_of(&input_path.clone()))
        .into_iter()
        .collect();

    // Then
    let expected_path = input_path.clone();
    assert_eq!(expected_path, actual_path);
}

#[test]
fn path_after_last_assets_component_kept() {
    let components: Vec<String> = vec!["assets", "maps", "assets", "tiles", "grass.png"]
        .into_iter()
        .map(String::from)
        .collect();
    let expected: Vec<String> = vec![String::from("tiles"), String::from("grass.png")];
    assert_eq!(expected, to_bevy_path(components));
}

#[test]
fn path_ending_in_assets_is_empty() {
    let components: Vec<String> = vec![String::from("game"), String::from("assets")];
    assert!(to_bevy_path(components).is_empty());
}
