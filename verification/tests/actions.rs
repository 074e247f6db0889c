use organize::actions::email::Email;
use organize::actions::io_action::IOAction;
use organize::actions::simple::{CopyContinueWith, Echo, Extract, Hardlink, LinkContinueWith, Symlink};
use organize::conflict::ConflictOption;
use organize::filters::filename::Filename;
use organize::options::apply::{Apply, ApplyMapError};
use organize::resource::Resource;
use organize::storage::{Sftp, SftpOptions, Target};
use organize::templates::Template;

fn strings(v: &[&str]) -> Vec<String> {
    v.iter().map(|s| s.to_string()).collect()
}

fn pairs(v: &[(&str, &str)]) -> Vec<(String, String)> {
    v.iter().map(|(k, x)| (k.to_string(), x.to_string())).collect()
}

fn sftp_options(exclude: &[&str], hidden_files: bool, target: Target) -> SftpOptions {
    SftpOptions { min_depth: 1, max_depth: 3, exclude: strings(exclude), hidden_files, target }
}

#[test]
fn sftp_entry_path_joins_with_single_slashes() {
    assert_eq!(Sftp::entry_path("/a/b", "c"), "/a/b/c");
    assert_eq!(Sftp::entry_path("/a/b/", "c"), "/a/b/c");
    assert_eq!(Sftp::entry_path("/", "c"), "/c");
    assert_eq!(Sftp::entry_path("a", "c"), "/c");
}

#[test]
fn sftp_walk_decisions() {
    let options = sftp_options(&["skip.txt"], false, Target::Files);
    assert!(Sftp::lists(3, &options));
    assert!(!Sftp::lists(4, &options));
    assert!(Sftp::considers("report.txt", &options));
    assert!(!Sftp::considers("skip.txt", &options));
    assert!(!Sftp::considers(".hidden", &options));
    let with_hidden = sftp_options(&[], true, Target::Files);
    assert!(Sftp::considers(".hidden", &with_hidden));
    assert_eq!(Sftp::keeps(false, 1, &options), (true, false));
    assert_eq!(Sftp::keeps(false, 0, &options), (false, false));
    assert_eq!(Sftp::keeps(true, 2, &options), (false, true));
    let folders = sftp_options(&[], false, Target::Folders);
    assert_eq!(Sftp::keeps(true, 2, &folders), (true, true));
}

#[test]
fn apply_from_map_and_seq() {
    assert_eq!(Apply::from_map(Some("any_of"), vec![0, 2]), Ok(Apply::AnyOf(vec![0, 2])));
    assert_eq!(Apply::from_map(Some("all_of"), vec![1]), Ok(Apply::AllOf(vec![1])));
    assert_eq!(Apply::from_map(Some("some_of"), vec![1]), Err(ApplyMapError::UnknownField("some_of".to_string())));
    assert_eq!(Apply::from_map(None, vec![]), Err(ApplyMapError::MissingField));
    assert_eq!(Apply::from_seq(vec![3, 4]), Apply::AllOf(vec![3, 4]));
}

#[test]
fn io_action_from_entries() {
    let existing = strings(&["/dest"]);
    let a = IOAction::from_entries(&pairs(&[("to", "/dest"), ("if_exists", "skip"), ("sep", "_")]), &existing, "/home/u", &vec![]).unwrap();
    assert_eq!(a.to, "/dest");
    assert_eq!(a.if_exists, ConflictOption::Skip);
    assert_eq!(a.sep.0, "_");
    let d = IOAction::from_entries(&pairs(&[("to", "/dest")]), &existing, "/home/u", &vec![]).unwrap();
    assert_eq!(d.if_exists, ConflictOption::Rename);
    assert_eq!(d.sep.0, " ");
    assert_eq!(IOAction::from_entries(&pairs(&[("to", "/nowhere")]), &existing, "/home/u", &vec![]), Err("path does not exist".to_string()));
    assert_eq!(
        IOAction::from_entries(&pairs(&[("to", "/dest"), ("if_exists", "maybe")]), &existing, "/home/u", &vec![]),
        Err("invalid value".to_string())
    );
    assert_eq!(IOAction::from_entries(&pairs(&[("colour", "red")]), &existing, "/home/u", &vec![]), Err("unexpected key".to_string()));
    assert_eq!(IOAction::from_entries(&pairs(&[("sep", "-")]), &existing, "/home/u", &vec![]), Err("missing path".to_string()));
}

#[test]
fn destinations_are_expanded() {
    let vars = vec![("DEST".to_string(), "/data".to_string()), ("X".to_string(), "y".to_string())];
    let existing = strings(&["/data/in", "/home/u/docs"]);
    let a = IOAction::from_entries(&pairs(&[("to", "$DEST/in")]), &existing, "/home/u", &vars).unwrap();
    assert_eq!(a.to, "/data/in");
    let b = IOAction::from_entries(&pairs(&[("to", "~/docs")]), &existing, "/home/u", &vars).unwrap();
    assert_eq!(b.to, "/home/u/docs");
    assert_eq!(
        IOAction::from_entries(&pairs(&[("to", "$NOPE/in")]), &existing, "/home/u", &vars),
        Err("path does not exist".to_string())
    );
    let c = IOAction::from_str("~/$X/$UNSET/a$", "/home/u", &vars).unwrap();
    assert_eq!(c.to, "/home/u/y/$UNSET/a$");
    let i = organize::actions::inner::Inner::try_from("~/$X_1", "/h", &vec![("X_1".to_string(), "z".to_string())]).unwrap();
    assert_eq!(i.to, "/h/z");
}

#[test]
fn variables_expand_in_place() {
    let vars = vec![("A".to_string(), "1".to_string()), ("A".to_string(), "2".to_string())];
    assert_eq!(organize::expand::expand_vars_exec("x$A-$A$", &vars), "x2-2$");
    assert_eq!(organize::expand::expand_vars_exec("$", &vars), "$");
    assert_eq!(organize::expand::expand_vars_exec("$-", &vars), "$-");
}

fn email(cmd: &str, subject: Option<&str>) -> Email {
    Email {
        sender: "me@example.com".to_string(),
        password_cmd: cmd.to_string(),
        recipient: "you@example.com".to_string(),
        smtp_server: "smtp.example.com".to_string(),
        subject: subject.map(Template::new),
        body: None,
        attach: true,
    }
}

#[test]
fn email_password_command_splits_on_spaces() {
    let (program, args) = email("pass show mail", None).password_command();
    assert_eq!(program, "pass");
    assert_eq!(args, strings(&["show", "mail"]));
    let (program, args) = email("a  b", None).password_command();
    assert_eq!(program, "a");
    assert_eq!(args, strings(&["", "b"]));
    let (program, args) = email("", None).password_command();
    assert_eq!(program, "");
    assert!(args.is_empty());
}

#[test]
fn email_parts_of_the_message() {
    let res = Resource::new("/home/user/report.pdf", "/home/user");
    let engine = organize::templates::TemplateEngine::default();
    let e = email("pass", Some("Your file"));
    assert_eq!(e.subject_text(&res, &engine), Ok(Some("Your file".to_string())));
    assert_eq!(e.body_text(&res, &engine), Ok(None));
    assert_eq!(Email::attachment_name(&res), Some("report.pdf".to_string()));
}

#[test]
fn copy_and_link_carry_on_under_the_chosen_path() {
    let res = Resource::new("/src/a.txt", "/src");
    let copy = organize::actions::simple::Copy {
        to: Template::new("/dst/"),
        if_exists: ConflictOption::Rename,
        continue_with: CopyContinueWith::Copy,
        enabled: true,
    };
    assert_eq!(copy.next_path(&res, "/dst/a.txt"), "/dst/a.txt");
    assert!(copy.acts(false));
    assert!(!copy.acts(true));
    let original = organize::actions::simple::Copy { continue_with: CopyContinueWith::Original, ..copy };
    assert_eq!(original.next_path(&res, "/dst/a.txt"), "/src/a.txt");
    let hard = Hardlink {
        to: Template::new("/dst/"),
        if_exists: ConflictOption::Rename,
        continue_with: LinkContinueWith::Link,
        enabled: false,
    };
    assert_eq!(hard.next_path(&res, "/dst/a.txt"), "/src/a.txt");
    let hard_on = Hardlink { enabled: true, ..hard };
    assert_eq!(hard_on.next_path(&res, "/dst/a.txt"), "/dst/a.txt");
    let sym = Symlink {
        to: Template::new("/dst/"),
        if_exists: ConflictOption::Rename,
        continue_with: LinkContinueWith::Link,
    };
    assert_eq!(sym.next_path(&res, "/dst/a.txt"), "/dst/a.txt");
}

#[test]
fn filename_templates_in_order() {
    let f = Filename {
        startswith: vec![Template::new("a")],
        endswith: vec![Template::new("b"), Template::new("c")],
        contains: vec![Template::new("d")],
        case_sensitive: true,
    };
    let texts: Vec<String> = f.templates().iter().map(|t| t.text.clone()).collect();
    assert_eq!(texts, strings(&["a", "b", "c", "d"]));
}

#[test]
fn echo_renders_its_message_when_enabled() {
    let res = Resource::new("/in/song.mp3", "/in");
    let engine = organize::templates::TemplateEngine::default();
    let on = Echo { message: Template::new("found {{path | filename}}"), enabled: true };
    assert_eq!(on.execute(&res, &engine, &[]), Ok((Some("found song.mp3".to_string()), "/in/song.mp3".to_string())));
    let plain = Echo { message: Template::new("done"), enabled: true };
    assert_eq!(plain.execute(&res, &engine, &[]), Ok((Some("done".to_string()), "/in/song.mp3".to_string())));
    let off = Echo { message: Template::new("{{ broken"), enabled: false };
    assert_eq!(off.execute(&res, &engine, &[]), Ok((None, "/in/song.mp3".to_string())));
    let bad = Echo { message: Template::new("{{ broken"), enabled: true };
    assert!(bad.execute(&res, &engine, &[]).is_err());
}

#[test]
fn email_attaches_files_of_a_known_type() {
    let mut e = email("pass", None);
    let pdf = Resource::new("/home/user/report.pdf", "/home/user");
    assert_eq!(
        e.attachment(&pdf),
        Some(("report.pdf".to_string(), "application".to_string(), "pdf".to_string()))
    );
    let unknown = Resource::new("/home/user/README", "/home/user");
    assert_eq!(e.attachment(&unknown), None);
    e.attach = false;
    assert_eq!(e.attachment(&pdf), None);
}

#[test]
fn extraction_moves_a_single_folder_up() {
    let one = vec![("/tmp/d/x".to_string(), true)];
    assert_eq!(Extract::single_folder(&one), Some("/tmp/d/x".to_string()));
    assert_eq!(Extract::single_folder(&vec![("/tmp/d/f.txt".to_string(), false)]), None);
    assert_eq!(Extract::single_folder(&vec![("/a".to_string(), true), ("/b".to_string(), true)]), None);
    assert_eq!(Extract::flattened_path("/tmp/d", "/tmp/d/x", "/tmp/d/x/a.txt"), "/tmp/d/a.txt");
    assert_eq!(Extract::flattened_path("/tmp/d", "/tmp/d/x", "/tmp/d/x/sub"), "/tmp/d/sub");
    assert_eq!(Extract::flattened_path("/d", "/d/x", "/d/x/x"), "/d/");
}
