use organize::filters::expressions::Regex;
use organize::filters::file_regex::Regex as NameRegex;
use organize::filters::mime_types::Mime;
use organize::filters::mime_wrapper::MimeWrapper;
use organize::resource::Resource;

#[test]
fn test_match_negative() {
    let types = Mime::try_from(vec!["!image/*", "audio/*"]).unwrap();
    let img = Resource::from_str("test.jpg").unwrap();
    let audio = Resource::from_str("test.ogg").unwrap();
    assert_eq!(types.filter(&[&img]), vec![false]);
    assert_eq!(types.filter(&[&audio]), vec![true]);
}

#[test]
fn mime_test_match() {
    let types = Mime::try_from(vec!["image/*", "audio/*"]).unwrap();
    let img = Resource::from_str("test.jpg").unwrap();
    let audio = Resource::from_str("test.ogg").unwrap();
    assert_eq!(types.filter(&[&img]), vec![true]);
    assert_eq!(types.filter(&[&audio]), vec![true]);
}

#[test]
fn mod_test_match() {
    let types = MimeWrapper::try_from(vec!["image/*", "audio/*"]).unwrap();
    let img = "test.jpg";
    let audio = "test.ogg";
    assert!(types.matches(&img));
    assert!(types.matches(&audio));
}

#[test]
fn mime_exact_and_refused() {
    let types = Mime::try_from(vec!["application/pdf"]).unwrap();
    let pdf = Resource::from_str("/docs/a.pdf").unwrap();
    let txt = Resource::from_str("/docs/a.txt").unwrap();
    assert_eq!(types.filter(&[&pdf, &txt]), vec![true, false]);
    assert!(Mime::try_from(vec!["not a type"]).is_err());
    assert!(MimeWrapper::try_from(vec!["image"]).is_err());
    let unknown = MimeWrapper::try_from(vec!["application/octet-stream"]).unwrap();
    assert!(unknown.matches("/no/extension"));
}

#[test]
fn regex_match_single() {
    let regex = Regex::try_from(vec![r".*unsplash.*"]).unwrap();
    let path = Resource::from_str("$HOME/Pictures/test_unsplash_img.jpg").unwrap();
    assert_eq!(regex.filter(&[&path]), Ok(vec![true]))
}

#[test]
fn regex_match_multiple() {
    let regex = Regex::try_from(vec![r".*unsplash.*", r"\w"]).unwrap();
    let path = Resource::from_str("$HOME/Pictures/test_unsplash_img.jpg").unwrap();
    assert_eq!(regex.filter(&[&path]), Ok(vec![true]))
}

#[test]
fn regex_no_match_multiple() {
    let regex = Regex::try_from(vec![r".*unsplash.*", r"\d"]).unwrap();
    let path = Resource::from_str("$HOME/Documents/deep_learning.pdf").unwrap();
    assert_eq!(regex.filter(&[&path]), Ok(vec![false]))
}

#[test]
fn regex_runs_on_file_name_only() {
    let regex = Regex::try_from(vec![r"^Pictures"]).unwrap();
    let path = Resource::from_str("Pictures/img.jpg").unwrap();
    assert_eq!(regex.filter(&[&path]), Ok(vec![false]));
    assert!(Regex::try_from(vec!["("]).is_err());
}

#[test]
fn mod_match_single() {
    let regex = NameRegex::from_str(r".*unsplash.*").unwrap();
    let path = "$HOME/Pictures/test_unsplash_img.jpg";
    assert!(regex.matches(&path))
}

#[test]
fn mod_match_multiple() {
    let regex = NameRegex::try_from(vec![r".*unsplash.*", r"\w"]).unwrap();
    let path = "$HOME/Pictures/test_unsplash_img.jpg";
    assert!(regex.matches(&path))
}

#[test]
fn mod_no_match_multiple() {
    let regex = NameRegex::try_from(vec![r".*unsplash.*", r"\d"]).unwrap();
    let path = "$HOME/Documents/deep_learning.pdf";
    assert!(!regex.matches(&path))
}

#[test]
fn name_regex_without_name() {
    let regex = NameRegex::from_str(r".*").unwrap();
    assert!(!regex.matches("/"));
    assert!(NameRegex::from_str("[").is_err());
}

fn sources(re: &NameRegex) -> Vec<String> {
    re.0.iter().map(|p| p.as_str().to_string()).collect()
}

#[test]
fn deserialize_single() {
    let value = NameRegex::from_str(".*").unwrap();
    assert_eq!(sources(&value), vec![".*".to_string()]);
}

#[test]
fn deserialize_mult() {
    let value = NameRegex::try_from(vec![".*", ".+"]).unwrap();
    assert_eq!(sources(&value), vec![".*".to_string(), ".+".to_string()]);
}
