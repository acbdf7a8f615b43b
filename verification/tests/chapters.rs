use youtube_summarizer_server::web::clients::yt_dlp::metadata::{chapter_label, empty_as_none};

fn label(title: Option<&str>, start: f64, end: Option<f64>) -> String {
    let start = start.to_string();
    let end = end.map(|x| x.to_string());
    chapter_label(title, &start, end.as_deref())
}

#[test]
fn displays_title_start_and_end() {
    assert_eq!(label(Some("Garfield"), 12.3, Some(15.0)), "Garfield - 12.3–15");
}

#[test]
fn displays_missing_title() {
    assert_eq!(label(None, 5.0, Some(7.5)), "Unnamed Chapter - 5–7.5");
}

#[test]
fn displays_missing_end() {
    assert_eq!(label(Some("Odie"), 15.0, None), "Odie - 15–end");
}

#[test]
fn displays_missing_title_and_end() {
    assert_eq!(label(None, 12.34, None), "Unnamed Chapter - 12.34–end");
}

#[test]
fn displays_zero_length_range() {
    assert_eq!(label(Some("Jon bakes lasagna"), 42.0, Some(42.0)), "Jon bakes lasagna - 42–42");
}

#[test]
fn trims_trailing_zeros() {
    assert_eq!(label(Some("Garfield"), 1.500, Some(2.0)), "Garfield - 1.5–2");
}

#[test]
fn empty_strings_become_none() {
    assert_eq!(empty_as_none(Some(String::new())), None);
    assert_eq!(empty_as_none(Some("  ".to_string())), None);
    assert_eq!(empty_as_none(Some(" \t\n\u{a0}\u{3000}".to_string())), None);
    assert_eq!(empty_as_none(None), None);
    assert_eq!(empty_as_none(Some(" x ".to_string())), Some(" x ".to_string()));
    assert_eq!(empty_as_none(Some("Some Title".to_string())), Some("Some Title".to_string()));
}
