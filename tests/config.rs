use gid::{Color, Config, ConfigError, Node, Profile, Value};

fn field<'a>(p: &'a Profile, key: &str) -> Option<&'a Value> {
    p.get(key)
}

#[test]
fn nested_tables_flatten_to_dotted_keys() {
    let c = Config::parse("[p]\na = { b = 1, c = { d = \"x\" } }\n").unwrap();
    let p = c.profile("p").unwrap();
    assert_eq!(p.fields().len(), 2);
    assert_eq!(field(p, "a.b"), Some(&Value::Integer(1)));
    assert_eq!(field(p, "a.c.d"), Some(&Value::String("x".to_string())));
}

#[test]
fn table_headers_flatten_like_inline_tables() {
    let c = Config::parse("[p.a]\nb = 1\n[p.a.c]\nd = \"x\"\n").unwrap();
    let p = c.profile("p").unwrap();
    assert_eq!(p.fields().len(), 2);
    assert_eq!(field(p, "a.b"), Some(&Value::Integer(1)));
    assert_eq!(field(p, "a.c.d"), Some(&Value::String("x".to_string())));
}

#[test]
fn color_array_parses() {
    let c = Config::parse("[p]\ncolor.diff.old = [1, \"red\", 300]\n").unwrap();
    let p = c.profile("p").unwrap();
    assert_eq!(
        field(p, "color.diff.old"),
        Some(&Value::ColorArray(vec![
            Color::Number(1),
            Color::String("red".to_string()),
            Color::Number(300),
        ]))
    );
}

#[test]
fn float_array_is_rejected() {
    let r = Config::parse("[p]\nx = [1.5]\n");
    assert_eq!(r.err(), Some(ConfigError::NonColorArray));
}

#[test]
fn mixed_array_is_rejected() {
    let r = Config::parse("[p]\nx = [\"x\", true]\n");
    assert_eq!(r.err(), Some(ConfigError::NonColorArray));
}

#[test]
fn float_scalar_is_rejected() {
    let r = Config::parse("[p]\nx = 1.5\n");
    assert_eq!(r.err(), Some(ConfigError::UnsupportedScalar));
}

#[test]
fn datetime_scalar_is_rejected() {
    let r = Config::parse("[p]\nwhen = 1979-05-27T07:32:00Z\n");
    assert_eq!(r.err(), Some(ConfigError::UnsupportedScalar));
}

#[test]
fn malformed_document_is_a_syntax_error() {
    let r = Config::parse("[p\nx = ");
    assert!(matches!(r, Err(ConfigError::Syntax(_))));
}

#[test]
fn root_must_be_a_table() {
    let r = Config::from_tree(&Node::Integer(3));
    assert_eq!(r.err(), Some(ConfigError::NotATable));
}

#[test]
fn empty_profile_name_is_rejected() {
    let r = Config::parse("[\"\"]\nx = 1\n");
    assert_eq!(r.err(), Some(ConfigError::EmptyProfileName));
    assert_eq!(Profile::new(String::new()).err(), Some(ConfigError::EmptyProfileName));
}

#[test]
fn active_and_profiles_are_read() {
    let text = "active = \"work\"\n\n[work]\nuser.name = \"A\"\ncommit.gpgsign = true\n\n[home]\nuser.name = \"B\"\n";
    let c = Config::parse(text).unwrap();
    assert_eq!(c.active(), Some(&"work".to_string()));
    assert_eq!(c.profiles().len(), 2);
    assert_eq!(c.profiles()[0].name(), "home");
    assert_eq!(c.profiles()[1].name(), "work");
    let w = c.profile("work").unwrap();
    assert_eq!(field(w, "commit.gpgsign"), Some(&Value::Boolean(true)));
    assert!(c.profile("nobody").is_none());
}

#[test]
fn active_that_is_not_a_string_is_ignored() {
    let c = Config::parse("active = 3\n[p]\n").unwrap();
    assert_eq!(c.active(), None);
    assert!(c.profile("p").is_some());
}

#[test]
fn active_naming_a_missing_profile_is_kept() {
    let c = Config::parse("active = \"gone\"\n[p]\nx = 1\n").unwrap();
    assert_eq!(c.active(), Some(&"gone".to_string()));
    assert_eq!(c.resolve(None).err(), Some(ConfigError::ProfileNotFound("gone".to_string())));
}

#[test]
fn config_renders_active_then_profiles_in_name_order() {
    let text = "[zeta]\nb = 2\na = \"s\"\n[alpha]\nc = [\"red\", 7]\nactive = \"zeta\"\n";
    let c = Config::parse(text);
    // `active` after a table header belongs to that table.
    let c = c.unwrap();
    assert_eq!(c.active(), None);
    assert_eq!(
        c.to_string(),
        "\n[alpha]\nactive = \"zeta\"\nc = [\"red\", 7]\n\n[zeta]\na = \"s\"\nb = 2\n"
    );
    let mut c2 = Config::parse("active = \"zeta\"\n[zeta]\nb = 2\n").unwrap();
    assert_eq!(c2.to_string(), "active = \"zeta\"\n\n[zeta]\nb = 2\n");
    assert!(c2.set_active("zeta").is_ok());
}

#[test]
fn rendered_document_reads_back_to_the_same_config() {
    let text = "active = \"work\"\n[work]\nuser = { name = \"A \\\"Q\\\" B\", email = \"a@b\" }\ncore.note = \"one\\ntwo\\tthree\"\ncolor.ui = [\"bold\", 255, 4096]\nn = -12\n[home.pull]\nrebase = false\n";
    let first = Config::parse(text).unwrap();
    let rendered = first.to_string();
    let second = Config::parse(&rendered).unwrap();
    assert_eq!(second.to_string(), rendered);
    assert_eq!(second.active(), first.active());
    assert_eq!(second.profiles().len(), first.profiles().len());
    for (a, b) in first.profiles().iter().zip(second.profiles().iter()) {
        assert_eq!(a.name(), b.name());
        assert_eq!(a.fields(), b.fields());
    }
}

#[test]
fn multiline_string_reads_back_unchanged() {
    let mut p = Profile::new("p".to_string()).unwrap();
    p.insert("msg.text".to_string(), Value::String("first\nsecond \"q\"\\".to_string()));
    let mut c = Config::new();
    c.insert_profile(p);
    let text = c.to_string();
    assert!(text.contains("\"\"\"first\nsecond"));
    let back = Config::parse(&text).unwrap();
    assert_eq!(
        back.profile("p").unwrap().get("msg.text"),
        Some(&Value::String("first\nsecond \"q\"\\".to_string()))
    );
}

#[test]
fn setting_an_absent_active_profile_fails_and_changes_nothing() {
    let mut c = Config::parse("active = \"a\"\n[a]\nx = 1\n").unwrap();
    let r = c.set_active("b");
    assert_eq!(r, Err(ConfigError::ProfileNotFound("b".to_string())));
    assert_eq!(c.active(), Some(&"a".to_string()));
}

#[test]
fn setting_a_present_active_profile_succeeds() {
    let mut c = Config::parse("[a]\n[b]\n").unwrap();
    assert_eq!(c.active(), None);
    assert_eq!(c.set_active("b"), Ok(()));
    assert_eq!(c.active(), Some(&"b".to_string()));
}

#[test]
fn inserting_a_profile_of_a_taken_name_replaces_it() {
    let mut c = Config::parse("[p]\nold.key = 1\nshared = 2\n[q]\nz = 0\n").unwrap();
    let mut p = Profile::new("p".to_string()).unwrap();
    p.insert("shared".to_string(), Value::Integer(3));
    c.insert_profile(p);
    let got = c.profile("p").unwrap();
    assert_eq!(got.fields().len(), 1);
    assert_eq!(got.get("shared"), Some(&Value::Integer(3)));
    assert_eq!(got.get("old.key"), None);
    assert_eq!(c.profiles().len(), 2);
    assert_eq!(c.profile("q").unwrap().get("z"), Some(&Value::Integer(0)));
}

#[test]
fn profile_insert_overwrites_and_keeps_keys_sorted() {
    let mut p = Profile::new("me".to_string()).unwrap();
    p.insert("user.name".to_string(), Value::String("A".to_string()));
    p.insert("core.editor".to_string(), Value::String("vi".to_string()));
    p.insert("user.name".to_string(), Value::String("B".to_string()));
    assert_eq!(p.fields().len(), 2);
    assert_eq!(p.fields()[0].0, "core.editor");
    assert_eq!(p.fields()[1].1, Value::String("B".to_string()));
    assert_eq!(p.to_string(), "[me]\ncore.editor = \"vi\"\nuser.name = \"B\"\n");
}

#[test]
fn profiles_compare_by_name_only() {
    let mut a = Profile::new("same".to_string()).unwrap();
    a.insert("x".to_string(), Value::Integer(1));
    let b = Profile::new("same".to_string()).unwrap();
    let c = Profile::new("other".to_string()).unwrap();
    assert!(a == b);
    assert!(a != c);
    assert!(c < a);
    assert_eq!(a.partial_cmp(&b), Some(std::cmp::Ordering::Equal));
}

#[test]
fn git_arguments_and_pairs() {
    let mut p = Profile::new("p".to_string()).unwrap();
    p.insert("user.name".to_string(), Value::String("Ann Lee".to_string()));
    p.insert("color.diff.new".to_string(), Value::ColorArray(vec![Color::String("green".to_string()), Color::Number(512)]));
    assert_eq!(
        p.git_args(),
        vec!["-c", "color.diff.new=green #200", "-c", "user.name=Ann Lee"]
    );
    assert_eq!(
        p.git_pairs(),
        vec![
            ("color.diff.new".to_string(), "green #200".to_string()),
            ("user.name".to_string(), "Ann Lee".to_string()),
        ]
    );
}

#[test]
fn resolve_picks_named_then_active() {
    let c = Config::parse("active = \"b\"\n[a]\nx = 1\n[b]\ny = 2\n").unwrap();
    assert_eq!(c.resolve(Some("a")).unwrap().name(), "a");
    assert_eq!(c.resolve(None).unwrap().name(), "b");
    assert_eq!(c.resolve(Some("c")).err(), Some(ConfigError::ProfileNotFound("c".to_string())));
    let none = Config::parse("[a]\n").unwrap();
    assert_eq!(none.resolve(None).err(), Some(ConfigError::NoProfileSelected));
}

#[test]
fn list_marks_the_active_profile() {
    let c = Config::parse("active = \"b\"\n[a]\n[b]\n").unwrap();
    assert_eq!(c.list_lines(), vec!["  a", "* b"]);
}

#[test]
fn empty_config_renders_empty() {
    assert_eq!(Config::new().to_string(), "");
    let c = Config::parse("").unwrap();
    assert_eq!(c.profiles().len(), 0);
    assert_eq!(c.active(), None);
}

#[test]
fn git_listing_becomes_a_profile() {
    let listing = "user.name=Ann\r\ncommit.gpgsign=true\ncore.abbrev=12\nalias.x=log --a=b\nuser.name=Bea\n";
    let p = Profile::from_git_list("imported".to_string(), listing).unwrap();
    assert_eq!(p.name(), "imported");
    assert_eq!(p.fields().len(), 4);
    assert_eq!(p.get("user.name"), Some(&Value::String("Bea".to_string())));
    assert_eq!(p.get("commit.gpgsign"), Some(&Value::Boolean(true)));
    assert_eq!(p.get("core.abbrev"), Some(&Value::Integer(12)));
    assert_eq!(p.get("alias.x"), Some(&Value::String("log --a=b".to_string())));
}

#[test]
fn git_listing_line_without_equals_is_rejected() {
    let r = Profile::from_git_list("p".to_string(), "a.b=1\nbare.key\n");
    assert_eq!(r.err(), Some(ConfigError::MalformedGitLine("bare.key".to_string())));
    let e = Profile::from_git_list(String::new(), "a.b=1\n");
    assert_eq!(e.err(), Some(ConfigError::EmptyProfileName));
    let empty = Profile::from_git_list("p".to_string(), "").unwrap();
    assert_eq!(empty.fields().len(), 0);
}

#[test]
fn selecting_in_a_document_keeps_its_text() {
    let text = "# my profiles\nactive = \"a\"\n\n[a]\nx = 1 # one\n\n[b]\ny = 2\n";
    let out = Config::select_in_document(text, "b").unwrap();
    assert!(out.contains("# my profiles"));
    assert!(out.contains("x = 1 # one"));
    let c = Config::parse(&out).unwrap();
    assert_eq!(c.active(), Some(&"b".to_string()));
    let missing = Config::select_in_document(text, "c");
    assert_eq!(missing.err(), Some(ConfigError::ProfileNotFound("c".to_string())));
    let added = Config::select_in_document("[a]\n", "a").unwrap();
    assert_eq!(Config::parse(&added).unwrap().active(), Some(&"a".to_string()));
}

#[test]
fn tree_built_by_hand_is_read() {
    let root = Node::Table(vec![
        ("active".to_string(), Node::String("p".to_string())),
        (
            "p".to_string(),
            Node::Table(vec![
                ("k".to_string(), Node::Boolean(false)),
                ("t".to_string(), Node::Table(vec![("n".to_string(), Node::Integer(-1))])),
                ("c".to_string(), Node::Array(vec![Node::Integer(-1)])),
            ]),
        ),
        ("stray".to_string(), Node::Integer(5)),
    ]);
    let c = Config::from_tree(&root).unwrap();
    assert_eq!(c.active(), Some(&"p".to_string()));
    let p = c.profile("p").unwrap();
    assert_eq!(p.get("k"), Some(&Value::Boolean(false)));
    assert_eq!(p.get("t.n"), Some(&Value::Integer(-1)));
    assert_eq!(p.get("c"), Some(&Value::ColorArray(vec![Color::Number(4294967295)])));
    assert_eq!(c.profiles().len(), 1);
    let bad = Node::Table(vec![("p".to_string(), Node::Table(vec![("f".to_string(), Node::Float)]))]);
    assert_eq!(Config::from_tree(&bad).err(), Some(ConfigError::UnsupportedScalar));
}
