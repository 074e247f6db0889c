use organize::vfs::{Metadata, VfsEntry, VfsEntryConfig, VfsEntryType, VfsError, VfsLocation, VirtualFileSystem};
use organize::actions::copy::ContinueWith as CopyContinue;
use organize::actions::inner::{ConflictOption as LinkConflict, Inner};
use organize::actions::prepare::prepare_target_path;
use organize::actions::script::Script;
use organize::actions::simple::{Delete, Move};
use organize::actions::write::{ContinueWith, Write, WriteMode};
use organize::actions::{run, ExecutionModel};
use organize::backup::{Database, Event};
use organize::batch::{Batch, ExtensionPartitioner, FirstSelector, RandomSorter};
use organize::conflict::ConflictOption;
use organize::lines::{join_lines, sort_lines, split_lines};
use organize::options::layered::{FolderBuilder, Options};
use organize::options::targets::Targets;
use organize::pattern::Pattern;
use organize::providers::{Accessor, ArgsProvider, FileProvider, InputAccessor, InputBuilder, SchemaNode, Value};
use organize::resource::Resource;
use organize::storage::{Client, Entry, LocalFileSystem, LocationOptions, Target};
use organize::templates::{Context, Template, TemplateEngine};
use organize::variables::{RegexVariable, SimpleVariable, Variable};

fn strings(v: &[&str]) -> Vec<String> {
    v.iter().map(|s| s.to_string()).collect()
}

#[test]
fn templates_render_plain_and_file_name() {
    let engine = TemplateEngine::default();
    let res = Resource::new("/home/user/report.pdf", "/home/user");
    assert_eq!(engine.render(&Template::new("plain text"), &res.context), Ok("plain text".to_string()));
    assert_eq!(
        engine.render(&Template::new("{{path | filename}}"), &res.context),
        Ok("report.pdf".to_string())
    );
    assert_eq!(engine.render(&Template::new("{{root}}/x"), &res.context), Ok("/home/user/x".to_string()));
    assert!(engine.render(&Template::new("{{missing}}"), &res.context).is_err());
}

#[test]
fn context_last_value_wins() {
    let mut c = Context::new();
    c.insert("a", "1");
    c.insert("b", "2");
    c.insert("a", "3");
    assert_eq!(c.get("a"), Some("3".to_string()));
    assert_eq!(c.get("b"), Some("2".to_string()));
    assert_eq!(c.get("c"), None);
}

#[test]
fn variables_register_values() {
    let mut c = Context::new();
    c.insert("path", "/music/artist - song.mp3");
    let simple = Variable::Simple(SimpleVariable { name: "kind".to_string(), value: Template::new("audio") });
    assert_eq!(simple.register(&mut c), Ok(()));
    assert_eq!(c.get("kind"), Some("audio".to_string()));
    let regex = Variable::Regex(RegexVariable {
        pattern: Pattern::new(r"(?P<artist>[^-]+) - (?P<title>.+)\.mp3").unwrap(),
        input: Template::new("{{path | filename}}"),
    });
    assert_eq!(regex.register(&mut c), Ok(()));
    assert_eq!(c.get("artist"), Some("artist".to_string()));
    assert_eq!(c.get("title"), Some("song".to_string()));
    let res = Resource::new("/x/a - b.mp3", "/x");
    let ctx = TemplateEngine::new_context(&res, &[regex]);
    assert_eq!(ctx.get("title"), Some("b".to_string()));
    assert_eq!(ctx.get("root"), Some("/x".to_string()));
}

#[test]
fn first_selector_takes_prefix() {
    let batch = Batch { files: strings(&["a", "b", "c"]) };
    assert_eq!(FirstSelector { n: 2 }.select(&batch).unwrap().files, strings(&["a", "b"]));
    assert_eq!(FirstSelector { n: 5 }.select(&batch).unwrap().files, strings(&["a", "b", "c"]));
    assert_eq!(FirstSelector { n: 0 }.select(&batch).unwrap().files, Vec::<String>::new());
}

#[test]
fn extension_partitioner_groups_in_order() {
    let batch = Batch { files: strings(&["/a/x.pdf", "/a/y", "/a/z.pdf", "/a/w.txt"]) };
    let groups = ExtensionPartitioner.partition(&batch).unwrap();
    assert_eq!(groups.len(), 3);
    assert_eq!(groups[0].0, "pdf");
    assert_eq!(groups[0].1.files, strings(&["/a/x.pdf", "/a/z.pdf"]));
    assert_eq!(groups[1].0, "no_extension");
    assert_eq!(groups[1].1.files, strings(&["/a/y"]));
    assert_eq!(groups[2].0, "txt");
}

#[test]
fn random_sorter_keeps_files() {
    let mut files = strings(&["a", "b", "c", "d"]);
    RandomSorter.sort(&mut files);
    files.sort();
    assert_eq!(files, strings(&["a", "b", "c", "d"]));
}

#[test]
fn lines_split_sort_join() {
    assert_eq!(split_lines("b\r\na\n\nc"), strings(&["b", "a", "", "c"]));
    assert_eq!(split_lines("x\n"), strings(&["x"]));
    assert_eq!(split_lines(""), Vec::<String>::new());
    assert_eq!(sort_lines("b\nA\na\nB"), "A\na\nb\nB");
    assert_eq!(join_lines(&strings(&["1", "2"])), "1\n2");
}

#[test]
fn write_action_decisions() {
    let write = Write {
        text: Template::new("{{path}}"),
        outfile: Template::new("/out/list.txt"),
        mode: WriteMode::Prepend,
        clear_before_first_write: false,
        sort_lines: true,
        continue_with: ContinueWith::WrittenFile,
        enabled: true,
    };
    assert_eq!(write.content("new", "old"), "old\nnew");
    assert_eq!(write.content("new", "old\n"), "old\nnew");
    assert_eq!(write.on_finish("b\na", false), Some("a\nb".to_string()));
    assert_eq!(write.on_finish("b\na", true), None);
    let res = Resource::new("/in/f.txt", "/in");
    assert_eq!(write.next_path(&res, "/out/list.txt"), "/out/list.txt");
    let engine = TemplateEngine::default();
    let dest = write.destination(&res, &engine, &[], &vec!["/out/list.txt".to_string()], &vec![]).unwrap();
    assert_eq!(dest, Some("/out/list.txt".to_string()));
    assert_eq!(WriteMode::default(), WriteMode::Append);
}

#[test]
fn move_destination_adds_name_and_renames() {
    let engine = TemplateEngine::default();
    let res = Resource::new("/in/report.pdf", "/in");
    let mv = Move { to: Template::new("/archive"), if_exists: ConflictOption::Rename, enabled: true };
    let existing = strings(&["/archive/report.pdf"]);
    let dirs = strings(&["/archive"]);
    assert_eq!(mv.destination(&res, &engine, &[], &existing, &dirs), Ok(Some("/archive/report (1).pdf".to_string())));
    let skip = Move { to: Template::new("/archive"), if_exists: ConflictOption::Skip, enabled: true };
    assert_eq!(skip.destination(&res, &engine, &[], &existing, &dirs), Ok(None));
    let to_file = prepare_target_path(&ConflictOption::Overwrite, &res, &Template::new("/x/new.pdf"), true, &engine, &[], &vec![], &vec![]);
    assert_eq!(to_file, Ok(Some("/x/new.pdf".to_string())));
    assert!(!Delete { enabled: true }.acts(true));
    assert!(Delete { enabled: true }.acts(false));
}

#[test]
fn inner_prepare_path_and_cycles() {
    let inner = Inner { to: "/dest".to_string(), if_exists: LinkConflict::Delete, allow_cycles: false };
    assert_eq!(inner.prepare_path("/src/a.txt", &vec![], &vec![]), Some("/dest/a.txt".to_string()));
    assert_eq!(inner.prepare_path("/src/a.txt", &strings(&["/dest/a.txt"]), &vec![]), None);
    assert!(inner.refuses("/d/a.txt", "/d/b.txt"));
    assert!(!inner.refuses("/d/a.txt", "/e/b.txt"));
    assert_eq!(LinkConflict::from_str("skip"), LinkConflict::Skip);
}

#[test]
fn run_keeps_executed_resources() {
    let resources = vec![Resource::new("/a/1", "/a"), Resource::new("/a/2", "/a"), Resource::new("/a/3", "/a")];
    let outcomes = vec![Some("/b/1".to_string()), None, Some("/b/3".to_string())];
    let kept = run(&resources, &outcomes);
    assert_eq!(kept.len(), 2);
    assert_eq!(kept[0].path, "/b/1");
    assert_eq!(kept[1].path, "/b/3");
    assert_eq!(kept[1].root, "/a");
    assert_eq!(ExecutionModel::default(), ExecutionModel::Parallel);
}

#[test]
fn script_output_readings() {
    assert_eq!(Script::verdict("huh\nTrue \n"), Some(true));
    assert_eq!(Script::verdict("false"), Some(false));
    assert_eq!(Script::verdict(""), Some(false));
    assert_eq!(Script::verdict("maybe"), None);
    assert_eq!(Script::destination("x\n  /new/path  \n"), Some("/new/path".to_string()));
    assert_eq!(Script::destination(""), None);
    let s = Script::new("python3", Template::new("print(1)"));
    assert_eq!(s.interpreter, "python3");
}

#[test]
fn copy_continue_with() {
    assert_eq!(CopyContinue::default().next("/a", Some("/b")), strings(&["/b"]));
    assert_eq!(CopyContinue::Both.next("/a", Some("/b")), strings(&["/a", "/b"]));
    assert_eq!(CopyContinue::Original.next("/a", Some("/b")), strings(&["/a"]));
    assert_eq!(CopyContinue::New.next("/a", None), strings(&["/a"]));
}

#[test]
fn history_links_events() {
    let mut db = Database::new("/tmp/history.json", vec![]);
    let first = db.insert(vec![("action".to_string(), "move".to_string())], None);
    let second = db.insert(vec![], Some(first));
    assert!(first < i32::MAX && second < i32::MAX);
    assert!(first >= 0 && second >= 0);
    assert_eq!(db.data.len(), 2);
    assert_eq!(db.data[1].last_event_id, Some(first));
    if first != second {
        let next = db.get_next_event(first).unwrap();
        assert_eq!(next.id, second);
    }
    db.add_backup_path(first, "/backup/x");
    let idx = db.find_event_index_by_id(first).unwrap();
    assert!(db.data[idx].data.contains(&("backup".to_string(), "/backup/x".to_string())));
    db.drop(second);
    assert_eq!(db.data.len(), 1);
}

#[test]
fn providers_values() {
    assert_eq!(FileProvider.get("name", "/a/b.txt"), Some(Value::OptionString(Some("b.txt".to_string()))));
    assert_eq!(FileProvider.get("stem", "/a/b.txt"), Some(Value::OptionString(Some("b".to_string()))));
    assert_eq!(FileProvider.get("extension", "/a/b"), Some(Value::OptionString(None)));
    assert_eq!(FileProvider.get("parent", "/a/b.txt"), Some(Value::OptionString(Some("/a".to_string()))));
    assert_eq!(FileProvider.get("path", "/a/b.txt"), Some(Value::String("/a/b.txt".to_string())));
    assert_eq!(FileProvider.get("size", "/a/b.txt"), None);
    let args = vec![("k".to_string(), "v".to_string())];
    assert_eq!(ArgsProvider.get(&args, "k"), "v");
    assert_eq!(ArgsProvider.get(&args, "z"), "<UNDEFINED>");
    assert_eq!(InputBuilder.build(0, None), Ok("Enter a value:".to_string()));
    assert_eq!(InputBuilder.build(1, Some("Name?".to_string())), Ok("Name?".to_string()));
    assert_eq!(
        InputBuilder.build(2, Some("x".to_string())),
        Err("input() takes at most one argument (the prompt), but received 2".to_string())
    );
}

#[test]
fn walking_filters() {
    let options = LocationOptions {
        exclude: strings(&["/w/skip"]),
        target: Target::Files,
        partial_files: false,
        hidden_files: false,
    };
    let fs = LocalFileSystem;
    let entry = |p: &str, f: bool| Entry { path: p.to_string(), is_file: f, is_dir: !f };
    assert!(fs.filter_entry(&entry("/w/a.txt", true), &options));
    assert!(!fs.filter_entry(&entry("/w/skip", true), &options));
    assert!(!fs.filter_entry(&entry("/w/dir", false), &options));
    assert!(!fs.filter_entry(&entry("/w/a.part", true), &options));
    assert!(!fs.filter_entry(&entry("/w/.hidden", true), &options));
    let mut client = Client;
    assert_eq!(client.check_server_key(), Ok(true));
}

#[test]
fn layered_options() {
    let folder = Options { exclude: None, hidden_files: Some(true), partial_files: None, targets: None };
    let rule = Options { exclude: Some(strings(&["/x/tmp"])), hidden_files: Some(false), partial_files: Some(true), targets: None };
    let defaults = Options::default_some();
    assert!(Options::hidden_files(&defaults, &rule, &folder));
    assert!(Options::partial_files(&defaults, &rule, &folder));
    assert_eq!(Options::targets(&defaults, &rule, &folder), Targets::File);
    assert_eq!(Options::excluded(&defaults, &rule, &folder), strings(&["/x/tmp"]));
    assert!(!Options::prefilter(&strings(&["/x/tmp"]), "/y/tmp"));
    assert!(Options::prefilter(&strings(&["/x/tmp"]), "/y/other"));
    assert!(!Options::postfilter(Targets::File, false, false, "/y/.h", true, false));
    assert!(Options::postfilter(Targets::Dir, false, false, "/y/d", false, true));
    let built = FolderBuilder { root: Template::new("~/Downloads/../Desktop/"), options: Options::default_none() }
        .build("/home/me")
        .unwrap();
    assert_eq!(built.path, "/home/me/Desktop");
}

#[test]
fn virtual_file_system_operations() {
    let mut fs = VirtualFileSystem::new("local");
    assert_eq!(fs.write("/a/b/c.txt", b"hello"), Ok(()));
    assert!(fs.try_exists("/a"));
    assert!(fs.try_exists("/a/b/"));
    assert_eq!(fs.read("/a/b/c.txt"), b"hello".to_vec());
    assert_eq!(fs.append_to_vfs_file("/a/b/c.txt", b" world"), Ok(()));
    assert_eq!(fs.read("/a/b/c.txt"), b"hello world".to_vec());
    assert_eq!(fs.read_dir("/a/b"), Ok(vec!["/a/b/c.txt".to_string()]));
    assert!(matches!(fs.read_dir("/a/b/c.txt"), Err(VfsError::NotADirectory(_))));
    assert!(matches!(fs.read_dir("/zzz"), Err(VfsError::NotFound(_))));
    assert_eq!(fs.rename("/a/b/c.txt", "/d/e.txt"), Ok(()));
    assert!(!fs.try_exists("/a/b/c.txt"));
    assert_eq!(fs.read("/d/e.txt"), b"hello world".to_vec());
    assert!(matches!(fs.rename("/nope", "/x"), Err(VfsError::NotFound(_))));
    assert_eq!(fs.copy("/d/e.txt", "/f/g.txt"), Ok(()));
    assert_eq!(fs.read("/f/g.txt"), b"hello world".to_vec());
    assert!(matches!(fs.copy("/f", "/h"), Err(VfsError::IsADirectory(_))));
    assert!(matches!(fs.hardlink("/d/e.txt", "/f/g.txt"), Err(VfsError::AlreadyExists(_))));
    assert_eq!(fs.symlink("/d/e.txt", "/f/link"), Ok(()));
    assert_eq!(fs.read("/f/link"), b"/d/e.txt".to_vec());
    assert!(matches!(fs.write("/d/e.txt/inner", b"x"), Err(VfsError::AlreadyExists(_))));
    assert_eq!(fs.delete("/f/link"), Ok(()));
    assert!(matches!(fs.delete("/f/link"), Err(VfsError::NotFound(_))));
    match fs.get_vfs_entry("/f") {
        Some(VfsEntry::Dir(d)) => assert_eq!(d.host, "local"),
        _ => panic!("expected a folder"),
    }
    let mut loaded = VirtualFileSystem::new("local");
    let configs = vec![
        VfsEntryConfig { path: "/w/a.txt".to_string(), entry_type: VfsEntryType::File, content_source: None, content: None, size: Some(3), host: "local".to_string() },
        VfsEntryConfig { path: "/w/.h".to_string(), entry_type: VfsEntryType::File, content_source: None, content: None, size: None, host: "local".to_string() },
        VfsEntryConfig { path: "/w/s/b.part".to_string(), entry_type: VfsEntryType::File, content_source: None, content: None, size: None, host: "local".to_string() },
        VfsEntryConfig { path: "/w/s/c.txt".to_string(), entry_type: VfsEntryType::File, content_source: None, content: None, size: None, host: "local".to_string() },
        VfsEntryConfig { path: "/w/o.txt".to_string(), entry_type: VfsEntryType::File, content_source: None, content: None, size: None, host: "other".to_string() },
    ];
    assert_eq!(loaded.load(&configs), Ok(()));
    let location = VfsLocation {
        path: "/w".to_string(),
        host: "local".to_string(),
        min_depth: 1,
        max_depth: 0,
        exclude: vec![],
        hidden_files: false,
        partial_files: false,
        target: Target::Files,
    };
    assert_eq!(loaded.discover(&location), vec!["/w/a.txt".to_string(), "/w/s/c.txt".to_string()]);
    let shallow = VfsLocation { max_depth: 1, ..location };
    assert_eq!(loaded.discover(&shallow), vec!["/w/a.txt".to_string()]);
}

#[test]
fn vfs_metadata_of_files_and_folders() {
    let mut fs = VirtualFileSystem::new("local");
    assert_eq!(fs.write("/m/n.txt", b"abcd"), Ok(()));
    assert_eq!(kind_and_size(&fs.metadata("/m/n.txt")), (Some(4), false, true));
    assert_eq!(kind_and_size(&fs.metadata("/m")), (None, true, false));
    assert_eq!(fs.metadata("/nothing"), Err(VfsError::NotFound("/nothing".to_string())));
    let configs = vec![VfsEntryConfig {
        path: "/d".to_string(),
        entry_type: VfsEntryType::Dir,
        content_source: None,
        content: None,
        size: Some(7),
        host: "local".to_string(),
    }];
    assert_eq!(fs.load(&configs), Ok(()));
    assert_eq!(kind_and_size(&fs.metadata("/d")), (Some(7), true, false));
}

#[test]
fn split_by_counts_hands_files_out_in_order() {
    let batch = Batch { files: strings(&["a", "b", "c", "d", "e"]) };
    let splits = vec![("train".to_string(), 3usize), ("test".to_string(), 1usize)];
    let r = organize::batch::split_by_counts(&batch, &splits);
    assert_eq!(r.len(), 2);
    assert_eq!(r[0].0, "train");
    assert_eq!(r[0].1.files, strings(&["a", "b", "c"]));
    assert_eq!(r[1].0, "test");
    assert_eq!(r[1].1.files, strings(&["d", "e"]));
    let greedy = vec![("x".to_string(), 9usize), ("y".to_string(), 2usize)];
    let r = organize::batch::split_by_counts(&batch, &greedy);
    assert_eq!(r[0].1.files, strings(&["a", "b", "c", "d", "e"]));
    assert!(r[1].1.files.is_empty());
    assert!(organize::batch::split_by_counts(&batch, &vec![]).is_empty());
}

#[test]
fn vfs_upload_in_chunks_and_download() {
    let mut fs = VirtualFileSystem::new("local");
    let chunks = vec![b"ab".to_vec(), vec![], b"cd".to_vec()];
    assert_eq!(fs.upload("/up/f.bin", &chunks), Ok(()));
    assert_eq!(fs.read("/up/f.bin"), b"abcd".to_vec());
    assert_eq!(fs.download("/up/f.bin"), Some(b"abcd".to_vec()));
    assert_eq!(fs.download("/up"), None);
    assert_eq!(fs.download("/missing"), None);
    assert_eq!(fs.upload("/up/f.bin/inner", &chunks).is_err(), true);
    assert_eq!(fs.upload("/up/empty", &vec![]), Ok(()));
    assert_eq!(fs.download("/up/empty"), Some(vec![]));
}

#[test]
fn input_prompt_must_be_a_string() {
    assert_eq!(InputAccessor.prompt(Value::String("Name?".to_string())), Ok("Name?".to_string()));
    assert_eq!(
        InputAccessor.prompt(Value::OptionString(Some("x".to_string()))),
        Err(Value::OptionString(Some("x".to_string())))
    );
}

#[test]
fn variables_add_values_in_order() {
    let res = Resource::new("/p/q.txt", "/p");
    let vars = vec![
        Variable::Simple(SimpleVariable { name: "a".to_string(), value: Template::new("x") }),
        Variable::Simple(SimpleVariable { name: "b".to_string(), value: Template::new("{{path | filename}}") }),
        Variable::Regex(RegexVariable {
            pattern: Pattern::new(r"(?P<first>\w)(?P<rest>\w*)").unwrap(),
            input: Template::new("hello"),
        }),
        Variable::Simple(SimpleVariable { name: "a".to_string(), value: Template::new("y") }),
    ];
    let ctx = TemplateEngine::new_context(&res, &vars);
    assert_eq!(ctx.get("a"), Some("y".to_string()));
    assert_eq!(ctx.get("b"), Some("q.txt".to_string()));
    assert_eq!(ctx.get("first"), Some("h".to_string()));
    assert_eq!(ctx.get("rest"), Some("ello".to_string()));
    assert_eq!(ctx.get("path"), Some("/p/q.txt".to_string()));
}

fn file_config(path: &str) -> VfsEntryConfig {
    VfsEntryConfig { path: path.to_string(), entry_type: VfsEntryType::File, content_source: None, content: None, size: None, host: "local".to_string() }
}

#[test]
fn vfs_load_fails_only_under_a_file() {
    let mut fs = VirtualFileSystem::new("local");
    assert_eq!(fs.load(&vec![file_config("/a"), file_config("/a/b")]), Err(VfsError::AlreadyExists("/a".to_string())));
    let mut fs = VirtualFileSystem::new("local");
    assert_eq!(fs.load(&vec![file_config("/a/b"), file_config("/a")]), Ok(()));
    assert_eq!(kind_and_size(&fs.metadata("/a")), (None, false, true));
    let mut fs = VirtualFileSystem::new("local");
    assert_eq!(fs.write("/x", b"1"), Ok(()));
    let dir = VfsEntryConfig { path: "/x".to_string(), entry_type: VfsEntryType::Dir, content_source: None, content: None, size: None, host: "local".to_string() };
    assert_eq!(fs.load(&vec![dir, file_config("/x/y")]), Ok(()));
}

#[test]
fn event_id_from_hash_stays_below_max() {
    assert_eq!(Event::id_from_hash(5), 5);
    assert_eq!(Event::id_from_hash(2147483647), 0);
    assert_eq!(Event::id_from_hash(u64::MAX), (u64::MAX % 2147483647) as i32);
}

#[test]
fn vfs_append_keeps_stored_bytes() {
    let mut fs = VirtualFileSystem::new("local");
    let stored = VfsEntryConfig {
        path: "/s/log.txt".to_string(),
        entry_type: VfsEntryType::File,
        content_source: Some("/snap/content/1234".to_string()),
        content: Some(b"old ".to_vec()),
        size: Some(4),
        host: "local".to_string(),
    };
    assert_eq!(fs.load(&vec![stored]), Ok(()));
    assert_eq!(fs.read("/s/log.txt"), b"old ".to_vec());
    assert_eq!(fs.download("/s/log.txt"), Some(b"old ".to_vec()));
    assert_eq!(fs.append_to_vfs_file("/s/log.txt", b"new"), Ok(()));
    assert_eq!(fs.read("/s/log.txt"), b"old new".to_vec());
    assert_eq!(kind_and_size(&fs.metadata("/s/log.txt")), (Some(7), false, true));
}

#[test]
fn provider_schemas() {
    let schema = FileProvider.schema();
    assert_eq!(schema.name, "file");
    let names: Vec<String> = match &schema.node {
        SchemaNode::Object(fields) => fields.iter().map(|f| f.name.clone()).collect(),
        _ => panic!("file's schema is an object"),
    };
    assert_eq!(names, strings(&["path", "name", "stem", "extension", "parent"]));
    if let SchemaNode::Object(fields) = &schema.node {
        assert_eq!(fields[1].accessor.value("/a/b.txt", &vec![]), Value::OptionString(Some("b.txt".to_string())));
        assert_eq!(fields[3].accessor.value("/a/b", &vec![]), Value::OptionString(None));
    }
    let args = ArgsProvider.schema();
    assert_eq!(args.name, "args");
    assert_eq!(args.node, SchemaNode::DynamicMap);
    let given = vec![("k".to_string(), "v".to_string())];
    assert_eq!(Accessor::Arg("k".to_string()).value("/x", &given), Value::String("v".to_string()));
    assert_eq!(Accessor::Arg("z".to_string()).value("/x", &given), Value::String("<UNDEFINED>".to_string()));
}

#[test]
fn folder_roots_are_cleaned() {
    let clean = |root: &str| FolderBuilder { root: Template::new(root), options: Options::default_none() }.build("/h").unwrap().path;
    assert_eq!(clean("/..//a"), "/a");
    assert_eq!(clean("a/../.."), "..");
    assert_eq!(clean(""), ".");
    assert_eq!(clean("./a/./b/"), "a/b");
    assert_eq!(clean("~"), "/h");
}

#[test]
fn script_verdict_trims_unicode_space() {
    assert_eq!(Script::verdict("x\n\u{3000}false\u{a0}"), Some(false));
    assert_eq!(Script::verdict("\tTRUE\u{2028}"), Some(true));
}

fn kind_and_size(m: &Result<Metadata, VfsError>) -> (Option<u64>, bool, bool) {
    let m = m.as_ref().unwrap();
    assert!(m.modified.is_some());
    (m.size, m.is_dir, m.is_file)
}

#[test]
fn vfs_times_and_links() {
    let mut fs = VirtualFileSystem::new("local");
    assert_eq!(fs.write("/t/a.txt", b"x"), Ok(()));
    let first = fs.metadata("/t/a.txt").unwrap();
    assert_eq!(first.created, first.modified);
    assert!(first.extra.is_empty());
    assert_eq!(fs.append_to_vfs_file("/t/a.txt", b"y"), Ok(()));
    let later = fs.metadata("/t/a.txt").unwrap();
    assert_eq!(later.created, first.created);
    assert!(later.modified >= first.modified);
    assert_eq!(fs.rename("/t/a.txt", "/t/b.txt"), Ok(()));
    let moved = fs.metadata("/t/b.txt").unwrap();
    assert_eq!(moved.created, first.created);
    assert_eq!(fs.symlink("/t/b.txt", "/t/link"), Ok(()));
    let link = fs.metadata("/t/link").unwrap();
    assert_eq!(link.extra, vec![("target".to_string(), "/t/b.txt".to_string())]);
    assert_eq!(link.size, Some(8));
    let dir = fs.metadata("/t").unwrap();
    assert!(dir.extra.is_empty() && dir.created.is_some());
}

#[test]
fn vfs_loads_of_the_same_snapshot_agree() {
    let configs = || vec![
        VfsEntryConfig { path: "/p/q/r.txt".to_string(), entry_type: VfsEntryType::File, content_source: None, content: Some(b"r".to_vec()), size: Some(1), host: "h".to_string() },
        VfsEntryConfig { path: "/p".to_string(), entry_type: VfsEntryType::Dir, content_source: None, content: None, size: Some(9), host: "h".to_string() },
    ];
    let mut one = VirtualFileSystem::new("h");
    let mut two = VirtualFileSystem::new("h");
    assert_eq!(one.load(&configs()), Ok(()));
    assert_eq!(two.load(&configs()), Ok(()));
    for path in ["/p", "/p/q", "/p/q/r.txt"] {
        assert_eq!(kind_and_size(&one.metadata(path)), kind_and_size(&two.metadata(path)));
        assert_eq!(one.read(path), two.read(path));
    }
    assert_eq!(kind_and_size(&one.metadata("/p")), (Some(9), true, false));
}
