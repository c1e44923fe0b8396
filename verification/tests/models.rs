use omegawhisper::models::{
    any_downloaded, default_model_id, get_model_status, list_available_models, must_unload,
    ModelInfo, ModelStatus,
};

#[test]
fn the_status_of_a_model_is_put_in_words() {
    assert_eq!(get_model_status(&ModelStatus::NotDownloaded), "not_downloaded");
    assert_eq!(get_model_status(&ModelStatus::Downloaded), "downloaded");
    let status = ModelStatus::Downloading { progress: "41.5".to_string() };
    assert_eq!(get_model_status(&status), "downloading:41.5");
    let status = ModelStatus::Error { message: "disk full".to_string() };
    assert_eq!(get_model_status(&status), "error:disk full");
}

#[test]
fn models_are_listed_with_their_status() {
    let model = |id: &str, engine: &str| ModelInfo {
        id: id.to_string(),
        name: "N".to_string(),
        description: "D".to_string(),
        engine_type: engine.to_string(),
        total_size_bytes: 7,
        accuracy_score: 0.5f32,
        speed_score: 0.25,
    };
    let list = list_available_models(&[
        (model("a", "Whisper"), ModelStatus::Downloaded),
        (model("b", "MoonshineΣ"), ModelStatus::NotDownloaded),
    ]);
    assert_eq!(list.len(), 2);
    assert_eq!((list[0].id.as_str(), list[0].engine_type.as_str()), ("a", "whisper"));
    assert_eq!((list[0].status.as_str(), list[0].total_size_bytes), ("downloaded", 7));
    assert_eq!((list[1].accuracy_score, list[1].speed_score), (0.5, 0.25));
    assert_eq!(list[1].engine_type, "MoonshineΣ".to_lowercase());
    assert_eq!((list[1].name.as_str(), list[1].description.as_str()), ("N", "D"));
    assert_eq!(list[1].status, "not_downloaded");
}

#[test]
fn one_downloaded_model_is_enough() {
    assert!(!any_downloaded(&[]));
    assert!(!any_downloaded(&[false, false]));
    assert!(any_downloaded(&[false, true]));
}

#[test]
fn a_model_is_unloaded_before_it_is_deleted() {
    assert!(must_unload(Some("a"), "a"));
    assert!(!must_unload(Some("b"), "a"));
    assert!(!must_unload(None, "a"));
}

#[test]
fn the_default_model_is_the_smallest() {
    assert_eq!(default_model_id(), "moonshine-base");
}
