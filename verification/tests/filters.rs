use organize::filters::extension::Extension;
use organize::filters::filename::Filename;
use organize::hidden::IsHidden;
use organize::resource::Resource;
use organize::templates::{Template, TemplateEngine};

#[test]
fn is_hidden_check_hidden() {
    let path = "/home/user/.testfile";
    assert!(path.is_hidden().unwrap())
}

#[test]
fn is_hidden_plain_and_root() {
    assert!(!"/home/user/testfile".is_hidden().unwrap());
    assert!(!"/".is_hidden().unwrap());
    assert!(".config/".is_hidden().unwrap());
}

#[test]
fn empty_list() {
    let extension = Extension { extensions: vec![] };
    let path = Resource::from_str("$HOME/Downloads/test.pdf").unwrap();
    let template_engine = TemplateEngine::default();
    let variables = vec![];
    assert!(extension.filter(&path, &template_engine, &variables))
}

#[test]
fn negative_match() {
    let extension = Extension {
        extensions: vec!["!pdf".into()],
    };
    let path = Resource::from_str("$HOME/Downloads/test.pdf").unwrap();
    let template_engine = TemplateEngine::default();
    let variables = vec![];
    assert!(!extension.filter(&path, &template_engine, &variables))
}

#[test]
fn single_match_pdf() {
    let extension = Extension {
        extensions: vec!["pdf".into()],
    };
    let path = Resource::from_str("$HOME/Downloads/test.pdf").unwrap();
    let template_engine = TemplateEngine::default();
    let variables = vec![];
    assert!(extension.filter(&path, &template_engine, &variables))
}

#[test]
fn multiple_match_pdf() {
    let extension = Extension {
        extensions: vec!["pdf".into(), "doc".into(), "docx".into()],
    };
    let path = Resource::from_str("$HOME/Downloads/test.pdf").unwrap();
    let template_engine = TemplateEngine::default();
    let variables = vec![];
    assert!(extension.filter(&path, &template_engine, &variables))
}

#[test]
fn multiple_match_negative() {
    let extension = Extension {
        extensions: vec!["!pdf".into(), "doc".into(), "docx".into()],
    };
    let path = Resource::from_str("$HOME/Downloads/test.pdf").unwrap();
    let template_engine = TemplateEngine::default();
    let variables = vec![];
    assert!(!extension.filter(&path, &template_engine, &variables))
}

#[test]
fn no_match() {
    let extension = Extension {
        extensions: vec!["pdf".into(), "doc".into(), "docx".into()],
    };
    let path = Resource::from_str("$HOME/Downloads/test.jpg").unwrap();
    let template_engine = TemplateEngine::default();
    let variables = vec![];
    assert!(!extension.filter(&path, &template_engine, &variables))
}

#[test]
fn extension_missing_never_passes() {
    let extension = Extension { extensions: vec![] };
    let path = Resource::from_str("/home/user/Makefile").unwrap();
    let template_engine = TemplateEngine::default();
    let variables = vec![];
    assert!(!extension.filter(&path, &template_engine, &variables));
    let dotfile = Resource::from_str("/home/user/.bashrc").unwrap();
    assert!(!extension.filter(&dotfile, &template_engine, &variables));
}

fn filename(startswith: Vec<&str>, endswith: Vec<&str>, contains: Vec<&str>, case_sensitive: bool) -> Filename {
    Filename {
        startswith: startswith.into_iter().map(Template::new).collect(),
        endswith: endswith.into_iter().map(Template::new).collect(),
        contains: contains.into_iter().map(Template::new).collect(),
        case_sensitive,
    }
}

#[test]
fn match_beginning_case_insensitive() {
    let path = Resource::from_str("$HOME/Downloads/test.pdf").unwrap();
    let filename = filename(vec!["TE"], vec![], vec![], false);
    let template_engine = TemplateEngine::default();
    let variables = vec![];
    assert!(filename.filter(&path, &template_engine, &variables))
}

#[test]
fn match_ending_case_insensitive() {
    let path = Resource::from_str("$HOME/Downloads/test.pdf").unwrap();
    let filename = filename(vec![], vec!["DF"], vec![], false);
    let template_engine = TemplateEngine::default();
    let variables = vec![];
    assert!(filename.filter(&path, &template_engine, &variables))
}

#[test]
fn match_containing_case_insensitive() {
    let path = Resource::from_str("$HOME/Downloads/test.pdf").unwrap();
    let filename = filename(vec![], vec![], vec!["ES"], false);
    let template_engine = TemplateEngine::default();
    let variables = vec![];
    assert!(filename.filter(&path, &template_engine, &variables))
}

#[test]
fn no_match_beginning_case_sensitive() {
    let path = Resource::from_str("$HOME/Downloads/test.pdf").unwrap();
    let filename = filename(vec!["TE"], vec![], vec![], true);
    let template_engine = TemplateEngine::default();
    let variables = vec![];
    assert!(!filename.filter(&path, &template_engine, &variables))
}

#[test]
fn no_match_ending_case_sensitive() {
    let path = Resource::from_str("$HOME/Downloads/test.pdf").unwrap();
    let filename = filename(vec!["DF"], vec![], vec![], true);
    let template_engine = TemplateEngine::default();
    let variables = vec![];
    assert!(!filename.filter(&path, &template_engine, &variables))
}

#[test]
fn no_match_containing_case_sensitive() {
    let path = Resource::from_str("$HOME/Downloads/test.pdf").unwrap();
    let filename = filename(vec![], vec![], vec!["ES"], true);
    let template_engine = TemplateEngine::default();
    let variables = vec![];
    assert!(!filename.filter(&path, &template_engine, &variables))
}

#[test]
fn match_containing_case_sensitive() {
    let path = Resource::from_str("$HOME/Downloads/tESt.pdf").unwrap();
    let filename = filename(vec![], vec![], vec!["ES"], true);
    let template_engine = TemplateEngine::default();
    let variables = vec![];
    assert!(filename.filter(&path, &template_engine, &variables))
}

#[test]
fn match_multiple_conditions_case_sensitive() {
    let path = Resource::from_str("$HOME/Downloads/tESt.pdf").unwrap();
    let filename = filename(vec!["t"], vec!["df"], vec!["ES"], true);
    let template_engine = TemplateEngine::default();
    let variables = vec![];
    assert!(filename.filter(&path, &template_engine, &variables))
}

#[test]
fn match_multiple_conditions_some_negative() {
    let path = Resource::from_str("$HOME/Downloads/tESt.pdf").unwrap();
    let filename = filename(vec!["t"], vec!["!df"], vec!["ES"], true);
    let template_engine = TemplateEngine::default();
    let variables = vec![];
    assert!(!filename.filter(&path, &template_engine, &variables))
}

#[test]
fn match_multiple_conditions_some_negative_2() {
    let path = Resource::from_str("$HOME/Downloads/tESt.pdf").unwrap();
    let filename = filename(vec!["t"], vec!["!df"], vec!["!ES", "ES"], true);
    let template_engine = TemplateEngine::default();
    let variables = vec![];
    assert!(!filename.filter(&path, &template_engine, &variables))
}

#[test]
fn match_multiple_conditions_some_negative_3() {
    let path = Resource::from_str("$HOME/Downloads/tESt.txt").unwrap();
    let filename = filename(vec!["t"], vec!["!df"], vec!["!ES", "ES"], true);
    let template_engine = TemplateEngine::default();
    let variables = vec![];
    assert!(filename.filter(&path, &template_engine, &variables))
}

#[test]
fn filename_without_patterns_passes_named_files_only() {
    let template_engine = TemplateEngine::default();
    let variables = vec![];
    let f = filename(vec![], vec![], vec![], false);
    assert!(f.filter(&Resource::from_str("/a/b.txt").unwrap(), &template_engine, &variables));
    assert!(!f.filter(&Resource::from_str("/").unwrap(), &template_engine, &variables));
}

fn empty_verdict(path: &std::path::Path) -> bool {
    let is_file = path.is_file();
    let size = path.metadata().ok().map(|m| m.len());
    let has_entries = path.read_dir().ok().map(|mut it| it.next().is_some());
    organize::filters::empty::Empty.judge(is_file, size, has_entries)
}

#[test]
fn test_file_positive() {
    let file = tempfile::NamedTempFile::new().unwrap();
    let path = file.path();
    assert_eq!(vec![empty_verdict(path)], vec![true])
}

#[test]
fn test_dir_positive() {
    let dir = tempfile::tempdir().unwrap();
    let path = dir.path();
    assert_eq!(vec![empty_verdict(path)], vec![true])
}

#[test]
fn test_file_negative() {
    let mut file = tempfile::NamedTempFile::new().unwrap();
    std::io::Write::write_all(&mut file, b"test").unwrap();
    let path = file.path();
    assert_eq!(vec![empty_verdict(path)], vec![false])
}

#[test]
fn test_dir_negative() {
    let dir = tempfile::NamedTempFile::new().unwrap();
    let path = dir.path().parent().unwrap();
    assert_eq!(vec![empty_verdict(path)], vec![false])
}
