use ccooler::paths::{is_plain_name, is_safe_relative, is_separator, is_within, join};
use ccooler::registry::{Category, PathSpec, Registry, RegistryError};
use ccooler::resolve::{
    find_installed, get_installed_software, lookup_variable, resolve_category, resolve_spec,
    retain_existing, Host, InstallRecord, ResolveError, Software, Variable,
};
use ccooler::aggregate::Totals;
use ccooler::text::{chars_of, starts_with};

fn literal(path: &str) -> PathSpec {
    PathSpec::Literal { path: path.to_string() }
}

fn env(variable: &str, relative: &str) -> PathSpec {
    PathSpec::EnvRelative { variable: variable.to_string(), relative: relative.to_string() }
}

fn app(name: &str, relative: &str) -> PathSpec {
    PathSpec::InstalledApp { app: name.to_string(), relative: relative.to_string() }
}

fn category(id: u32, specs: Vec<PathSpec>) -> Category {
    Category { id, name: format!("category {}", id), path_specs: specs, sub_breakdown: None }
}

fn host() -> Host {
    Host {
        variables: vec![
            Variable { name: "TEMP".to_string(), value: "C:\\Users\\u\\AppData\\Local\\Temp".to_string() },
            Variable { name: "EMPTY".to_string(), value: String::new() },
            Variable { name: "ROOT".to_string(), value: "D:\\".to_string() },
            Variable { name: "TEMP".to_string(), value: "C:\\Second".to_string() },
        ],
        installed: vec![Software {
            name: "WeChat".to_string(),
            path: "C:\\Program Files\\Tencent\\WeChat".to_string(),
            size_bytes: 0,
        }],
    }
}

#[test]
fn shipped_registry_has_seven_categories() {
    let registry = Registry::builtin();
    assert_eq!(registry.len(), 7);
    let names = ["系统临时文件", "浏览器缓存", "回收站", "Windows更新缓存", "系统文件清理", "下载目录", "应用缓存"];
    let counts = [2, 3, 1, 1, 2, 1, 1];
    for k in 0..7 {
        let c = registry.get(k).unwrap();
        assert_eq!(c.id as usize, k + 1);
        assert_eq!(c.name, names[k]);
        assert_eq!(c.path_specs.len(), counts[k]);
        assert!(c.sub_breakdown.is_none());
        assert_eq!(registry.find(c.id), Some(k));
        assert!(registry.contains(c.id));
    }
    assert!(registry.get(7).is_none());
    assert_eq!(registry.find(0), None);
    assert!(!registry.contains(8));
    match &registry.get(0).unwrap().path_specs[0] {
        PathSpec::EnvRelative { variable, relative } => {
            assert_eq!(variable, "TEMP");
            assert_eq!(relative, "");
        }
        _ => panic!("the first spec is relative to a variable"),
    }
    match &registry.get(2).unwrap().path_specs[0] {
        PathSpec::Literal { path } => assert_eq!(path, "C:\\$Recycle.Bin"),
        _ => panic!("the recycle bin is a literal path"),
    }
}

#[test]
fn registry_refuses_a_repeated_id() {
    let r = Registry::new(vec![category(1, vec![literal("a")]), category(1, vec![literal("b")])]);
    assert_eq!(r.err(), Some(RegistryError::DuplicateId(1)));
}

#[test]
fn registry_refuses_a_category_without_path_specs() {
    let r = Registry::new(vec![category(1, vec![literal("a")]), category(2, Vec::new())]);
    assert_eq!(r.err(), Some(RegistryError::NoPathSpecs(2)));
}

#[test]
fn registry_refuses_a_malformed_spec() {
    let r = Registry::new(vec![category(5, vec![literal("a"), env("TEMP", "..\\up")])]);
    assert_eq!(r.err(), Some(RegistryError::MalformedSpec(5)));
    let r = Registry::new(vec![category(6, vec![literal("")])]);
    assert_eq!(r.err(), Some(RegistryError::MalformedSpec(6)));
}

#[test]
fn registry_names_the_first_fault() {
    let r = Registry::new(vec![
        category(1, vec![literal("a")]),
        category(2, Vec::new()),
        category(1, vec![literal("b")]),
    ]);
    assert_eq!(r.err(), Some(RegistryError::NoPathSpecs(2)));
    let r = Registry::new(vec![category(1, vec![literal("a")]), category(1, Vec::new())]);
    assert_eq!(r.err(), Some(RegistryError::DuplicateId(1)));
}

#[test]
fn registry_keeps_the_order_it_is_given() {
    let r = Registry::new(vec![category(9, vec![literal("a")]), category(3, vec![literal("b")])])
        .unwrap();
    assert_eq!(r.len(), 2);
    assert_eq!(r.get(0).unwrap().id, 9);
    assert_eq!(r.find(3), Some(1));
    let empty = Registry::new(Vec::new()).unwrap();
    assert_eq!(empty.len(), 0);
}

#[test]
fn path_specs_are_well_formed_or_not() {
    assert!(literal("C:\\x").is_well_formed());
    assert!(!literal("").is_well_formed());
    assert!(env("TEMP", "").is_well_formed());
    assert!(env("TEMP", "a\\b").is_well_formed());
    assert!(!env("", "a").is_well_formed());
    assert!(!env("TEMP", "a\\..\\b").is_well_formed());
    assert!(!env("TEMP", ".").is_well_formed());
    assert!(app("WeChat", "data").is_well_formed());
    assert!(!app("", "data").is_well_formed());
    assert!(!app("WeChat", "..").is_well_formed());
    assert!(env("TEMP", "..hidden\\a..b").is_well_formed());
}

#[test]
fn a_literal_resolves_to_itself() {
    assert_eq!(resolve_spec(&literal("C:\\Windows\\Temp"), &host()), Ok(Some("C:\\Windows\\Temp".to_string())));
}

#[test]
fn a_variable_resolves_to_its_first_value() {
    assert_eq!(
        resolve_spec(&env("TEMP", ""), &host()),
        Ok(Some("C:\\Users\\u\\AppData\\Local\\Temp".to_string()))
    );
    assert_eq!(
        resolve_spec(&env("TEMP", "cache"), &host()),
        Ok(Some("C:\\Users\\u\\AppData\\Local\\Temp\\cache".to_string()))
    );
    assert_eq!(resolve_spec(&env("ROOT", "cache"), &host()), Ok(Some("D:\\cache".to_string())));
}

#[test]
fn what_the_host_does_not_have_resolves_to_nothing() {
    assert_eq!(resolve_spec(&env("UNSET", "x"), &host()), Ok(None));
    assert_eq!(resolve_spec(&env("EMPTY", "x"), &host()), Ok(None));
    assert_eq!(resolve_spec(&env("temp", "x"), &host()), Ok(None));
    assert_eq!(resolve_spec(&app("QQ", "data"), &host()), Ok(None));
}

#[test]
fn an_installed_application_resolves_below_its_install_directory() {
    assert_eq!(
        resolve_spec(&app("WeChat", "cache"), &host()),
        Ok(Some("C:\\Program Files\\Tencent\\WeChat\\cache".to_string()))
    );
}

#[test]
fn a_malformed_spec_is_the_only_error() {
    assert_eq!(resolve_spec(&literal(""), &host()), Err(ResolveError::MalformedSpec));
    assert_eq!(resolve_spec(&env("TEMP", ".."), &host()), Err(ResolveError::MalformedSpec));
    assert_eq!(resolve_spec(&app("", ""), &host()), Err(ResolveError::MalformedSpec));
}

#[test]
fn a_category_resolves_spec_by_spec() {
    let c = category(1, vec![env("TEMP", ""), env("UNSET", "x"), literal("C:\\Windows\\Temp")]);
    assert_eq!(
        resolve_category(&c, &host()),
        Ok(vec!["C:\\Users\\u\\AppData\\Local\\Temp".to_string(), "C:\\Windows\\Temp".to_string()])
    );
    let bad = category(2, vec![literal("C:\\a"), env("TEMP", "..")]);
    assert_eq!(resolve_category(&bad, &host()), Err(ResolveError::MalformedSpec));
    let none = category(3, vec![env("UNSET", "")]);
    assert_eq!(resolve_category(&none, &host()), Ok(Vec::new()));
}

#[test]
fn only_what_exists_is_kept() {
    let paths = vec!["a".to_string(), "b".to_string(), "c".to_string(), "d".to_string()];
    assert_eq!(
        retain_existing(paths.clone(), &vec![true, false, true]),
        vec!["a".to_string(), "c".to_string()]
    );
    assert_eq!(retain_existing(paths.clone(), &Vec::new()), Vec::<String>::new());
    assert_eq!(retain_existing(paths, &vec![true, true, true, true, true]).len(), 4);
}

#[test]
fn lookups_take_the_first_match() {
    let h = host();
    assert_eq!(lookup_variable(&h.variables, &"TEMP".to_string()), Some("C:\\Users\\u\\AppData\\Local\\Temp".to_string()));
    assert_eq!(lookup_variable(&h.variables, &"NONE".to_string()), None);
    assert_eq!(find_installed(&h.installed, &"WeChat".to_string()), Some("C:\\Program Files\\Tencent\\WeChat".to_string()));
    assert_eq!(find_installed(&h.installed, &"wechat".to_string()), None);
}

#[test]
fn installed_software_takes_its_sizes_from_the_walks() {
    let records = vec![
        InstallRecord { name: "Microsoft Office".to_string(), path: "C:\\Program Files\\Microsoft Office".to_string() },
        InstallRecord { name: "Google Chrome".to_string(), path: "C:\\Program Files\\Google\\Chrome".to_string() },
        InstallRecord { name: "WeChat".to_string(), path: "C:\\Program Files\\Tencent\\WeChat".to_string() },
    ];
    let sizes = vec![
        Totals { total_bytes: 2300, item_count: 10, unreadable_count: 0 },
        Totals { total_bytes: 1200, item_count: 5, unreadable_count: 1 },
    ];
    let out = get_installed_software(&records, &sizes);
    assert_eq!(out.len(), 3);
    assert_eq!(out[0].name, "Microsoft Office");
    assert_eq!(out[0].size_bytes, 2300);
    assert_eq!(out[1].path, "C:\\Program Files\\Google\\Chrome");
    assert_eq!(out[1].size_bytes, 1200);
    assert_eq!(out[2].name, "WeChat");
    assert_eq!(out[2].size_bytes, 0);
}

#[test]
fn joining_puts_one_separator_between() {
    assert_eq!(join("C:\\Temp", "a.txt"), "C:\\Temp\\a.txt");
    assert_eq!(join("C:\\Temp\\", "a.txt"), "C:\\Temp\\a.txt");
    assert_eq!(join("C:/Temp/", "a.txt"), "C:/Temp/a.txt");
    assert_eq!(join("", "a.txt"), "a.txt");
    assert_eq!(join("C:\\Temp", ""), "C:\\Temp");
    assert_eq!(join("", ""), "");
    assert_eq!(join("目录", "文件"), "目录\\文件");
}

#[test]
fn containment_is_strict_and_textual() {
    assert!(is_within("C:\\Temp", "C:\\Temp\\a"));
    assert!(is_within("C:\\Temp", "C:\\Temp\\a\\b\\c.txt"));
    assert!(is_within("C:\\Temp\\", "C:\\Temp\\a"));
    assert!(is_within("C:\\Temp", "C:\\Temp/a"));
    assert!(is_within("C:\\Temp", "C:\\Temp\\..a"));
    assert!(is_within("C:\\Temp", "C:\\Temp\\a..\\...\\.b"));
    assert!(!is_within("C:\\Temp", "C:\\Temp"));
    assert!(!is_within("C:\\Temp", "C:\\Temp\\"));
    assert!(!is_within("C:\\Temp", "C:\\Tempest\\a"));
    assert!(!is_within("C:\\Temp", "C:\\Other\\a"));
    assert!(!is_within("C:\\Temp", "C:\\Temp\\..\\Windows"));
    assert!(!is_within("C:\\Temp", "C:\\Temp\\a\\.."));
    assert!(!is_within("C:\\Temp", "C:\\Temp\\.\\a"));
    assert!(!is_within("C:\\Temp", "C:\\Temp\\a\\."));
    assert!(!is_within("C:\\Temp", "C:\\Temp\\\\..\\a"));
    assert!(!is_within("", "a"));
    assert!(!is_within("C:\\Temp", "c:\\temp\\a"));
    assert!(!is_within("C:\\Temp\\a", "C:\\Temp"));
}

#[test]
fn plain_names_have_no_separator_and_are_no_dots() {
    assert!(is_plain_name("a.txt"));
    assert!(is_plain_name("..."));
    assert!(is_plain_name(".git"));
    assert!(is_plain_name("文件"));
    assert!(!is_plain_name(""));
    assert!(!is_plain_name("."));
    assert!(!is_plain_name(".."));
    assert!(!is_plain_name("a\\b"));
    assert!(!is_plain_name("a/b"));
    assert!(is_separator('\\'));
    assert!(is_separator('/'));
    assert!(!is_separator(':'));
}

#[test]
fn safe_relative_paths_never_step_up() {
    assert!(is_safe_relative(""));
    assert!(is_safe_relative("a\\b"));
    assert!(is_safe_relative("\\a"));
    assert!(is_safe_relative("a..b\\..c"));
    assert!(!is_safe_relative(".."));
    assert!(!is_safe_relative("a\\..\\b"));
    assert!(!is_safe_relative("a/./b"));
    assert!(!is_safe_relative("..\\a"));
}

#[test]
fn text_helpers_work_on_characters() {
    assert_eq!(chars_of("C:目录"), vec!['C', ':', '目', '录']);
    assert_eq!(chars_of(""), Vec::<char>::new());
    assert!(starts_with(&chars_of("C:\\x"), &chars_of("C:")));
    assert!(starts_with(&chars_of("C:"), &chars_of("C:")));
    assert!(starts_with(&chars_of("C:"), &chars_of("")));
    assert!(!starts_with(&chars_of("C"), &chars_of("C:")));
    assert!(!starts_with(&chars_of("D:\\x"), &chars_of("C:")));
}
