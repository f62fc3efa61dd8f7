use oletypelib::catalog::{
    make_version_str, oletypelib_path, oletypelib_search_registry, oletypelib_search_registry2,
    reg_get_typelib_file_path, select_latest, typelib_file, typelib_file_from_typelib, Catalog,
    ClassEntry, GuidEntry, PlatformPaths, TypeLibFile, VersionEntry,
};
use oletypelib::decimal::{isdigit, parse_loose_decimal, version_less, LooseDecimal};
use oletypelib::error::{not_found, Error};
use oletypelib::library::{lib_flags_visible, resolve_by_guid_version, Guid, LibAttr, LibraryHandle};
use oletypelib::resolve::resolution_plan;
use oletypelib::session::{ole_initialized, OleSession, OleSetup, SessionAction};
use oletypelib::typedesc::{ole_typedesc2val, scalar_text, TypeDesc};

fn dec(s: &str) -> (u64, i128) {
    let d = parse_loose_decimal(s);
    (d.mantissa, d.exponent)
}

fn as_f64(s: &str) -> f64 {
    let d = parse_loose_decimal(s);
    d.mantissa as f64 * 10f64.powi(d.exponent as i32)
}

fn paths(w64: Option<&str>, w32: Option<&str>, w16: Option<&str>) -> PlatformPaths {
    PlatformPaths {
        win64: w64.map(|s| s.to_string()),
        win32: w32.map(|s| s.to_string()),
        win16: w16.map(|s| s.to_string()),
    }
}

fn version(v: &str, display: Option<&str>, file: &str) -> VersionEntry {
    VersionEntry {
        version: v.to_string(),
        display: display.map(|s| s.to_string()),
        locales: vec![paths(None, Some(file), None)],
    }
}

fn sample_catalog() -> Catalog {
    Catalog {
        libraries: vec![
            GuidEntry {
                guid: "{A}".to_string(),
                versions: vec![
                    version("1.0", Some("Lib A one"), "a1.tlb"),
                    version("2.0", Some("Lib A two"), "a2.tlb"),
                    version("1.5", Some("Lib A one and a half"), "a15.tlb"),
                ],
            },
            GuidEntry {
                guid: "{B}".to_string(),
                versions: vec![version("1.0", Some("Shared"), "b.tlb"), version("3.0", None, "b3.tlb")],
            },
            GuidEntry {
                guid: "{C}".to_string(),
                versions: vec![version("1.0", Some("Shared"), "c.tlb")],
            },
        ],
    }
}

#[test]
fn isdigit_accepts_only_decimal_digits() {
    assert!(isdigit('0'));
    assert!(isdigit('9'));
    assert!(!isdigit('a'));
    assert!(!isdigit('.'));
}

#[test]
fn parse_empty_and_non_numeric_is_zero() {
    assert_eq!(dec(""), (0, 0));
    assert_eq!(dec("abc"), (0, 0));
    assert_eq!(as_f64(""), 0.0);
    assert_eq!(as_f64("abc"), 0.0);
}

#[test]
fn parse_fraction() {
    assert_eq!(dec("12.5"), (125, -1));
    assert_eq!(as_f64("12.5"), 12.5);
}

#[test]
fn parse_exponent() {
    assert_eq!(dec("3e2"), (3, 2));
    assert_eq!(as_f64("3e2"), 300.0);
}

#[test]
fn parse_full_form_with_signs() {
    assert_eq!(dec("1.25e-3"), (125, -5));
    assert_eq!(dec("1.25E+3"), (125, 1));
    assert_eq!(dec("4.5e1"), (45, 0));
}

#[test]
fn parse_ignores_trailing_text() {
    assert_eq!(dec("2.a"), (2, 0));
    assert_eq!(dec("7x9"), (7, 0));
    assert_eq!(dec("1.0e"), (10, -1));
}

#[test]
fn parse_long_mantissa_keeps_leading_digits() {
    let d = parse_loose_decimal("123456789012345678901234");
    assert_eq!(d, LooseDecimal { mantissa: 123456789012345678, exponent: 6 });
}

#[test]
fn version_order() {
    let a = parse_loose_decimal("1.5");
    let b = parse_loose_decimal("2.0");
    let c = parse_loose_decimal("1.50");
    assert!(version_less(&a, &b));
    assert!(!version_less(&b, &a));
    assert!(!version_less(&a, &c));
    assert!(!version_less(&c, &a));
    assert!(version_less(&parse_loose_decimal("9"), &parse_loose_decimal("1e1")));
}

#[test]
fn make_version_str_forms() {
    assert_eq!(make_version_str("", "3"), None);
    assert_eq!(make_version_str("1", ""), Some("1".to_string()));
    assert_eq!(make_version_str("1", "3"), Some("1.3".to_string()));
}

#[test]
fn platform_preference_order() {
    assert_eq!(reg_get_typelib_file_path(&paths(Some("x64"), Some("x32"), Some("x16"))), Some("x64".to_string()));
    assert_eq!(reg_get_typelib_file_path(&paths(None, Some("x32"), Some("x16"))), Some("x32".to_string()));
    assert_eq!(reg_get_typelib_file_path(&paths(None, None, Some("x16"))), Some("x16".to_string()));
    assert_eq!(reg_get_typelib_file_path(&paths(None, None, None)), None);
}

#[test]
fn latest_version_is_selected_without_hint() {
    let cat = sample_catalog();
    assert_eq!(select_latest(&cat.libraries[0].versions), Some(1));
    assert_eq!(oletypelib_search_registry2(&cat, "{A}", "", ""), Some((0, 1)));
    assert_eq!(cat.libraries[0].versions[1].version, "2.0");
}

#[test]
fn equal_versions_keep_first_seen() {
    let vs = vec![version("1.0", Some("x"), "x"), version("1", Some("y"), "y")];
    assert_eq!(select_latest(&vs), Some(0));
}

#[test]
fn entries_without_display_name_are_not_selected() {
    let cat = sample_catalog();
    assert_eq!(oletypelib_search_registry2(&cat, "{B}", "", ""), Some((1, 0)));
    assert_eq!(select_latest(&vec![version("1.0", None, "x"), version("2.0", Some(""), "y")]), None);
}

#[test]
fn explicit_version_is_looked_up_exactly() {
    let cat = sample_catalog();
    assert_eq!(oletypelib_search_registry2(&cat, "{A}", "1", "5"), Some((0, 2)));
    assert_eq!(oletypelib_search_registry2(&cat, "{A}", "1", "6"), None);
    assert_eq!(oletypelib_search_registry2(&cat, "{Z}", "", ""), None);
}

#[test]
fn search_by_name_lists_matches_in_order() {
    let cat = sample_catalog();
    assert_eq!(oletypelib_search_registry(&cat, "Shared"), vec![(1, 0), (2, 0)]);
    assert_eq!(oletypelib_search_registry(&cat, "Lib A two"), vec![(0, 1)]);
    assert!(oletypelib_search_registry(&cat, "Unregistered.Nonexistent.Library").is_empty());
}

#[test]
fn path_by_guid_and_version() {
    let cat = sample_catalog();
    assert_eq!(oletypelib_path(&cat, "{A}", "1.5"), Some("a15.tlb".to_string()));
    assert_eq!(oletypelib_path(&cat, "{A}", "9.9"), None);
}

#[test]
fn file_of_class_prefers_server_registration() {
    let cat = sample_catalog();
    let classes = vec![ClassEntry {
        clsid: "Shared".to_string(),
        has_server_key: true,
        server_key_value: Some("%SystemRoot%\\srv.dll".to_string()),
        server_value: Some("other.dll".to_string()),
    }];
    match typelib_file(&classes, &cat, "Shared") {
        Some(TypeLibFile::Server(p)) => assert_eq!(p, "%SystemRoot%\\srv.dll"),
        other => panic!("unexpected {:?}", other),
    }
    match typelib_file(&vec![], &cat, "Shared") {
        Some(TypeLibFile::Registered(p)) => assert_eq!(p, "b.tlb"),
        other => panic!("unexpected {:?}", other),
    }
    assert_eq!(typelib_file_from_typelib(&cat, "Lib A two"), Some("a2.tlb".to_string()));
    assert!(typelib_file(&vec![], &cat, "Nothing").is_none());
}

#[test]
fn class_without_server_key_uses_named_value() {
    let cat = Catalog { libraries: vec![] };
    let classes = vec![ClassEntry {
        clsid: "{K}".to_string(),
        has_server_key: false,
        server_key_value: None,
        server_value: Some("k.dll".to_string()),
    }];
    match typelib_file(&classes, &cat, "{K}") {
        Some(TypeLibFile::Server(p)) => assert_eq!(p, "k.dll"),
        other => panic!("unexpected {:?}", other),
    }
}

#[test]
fn visibility_is_inverted_for_hidden() {
    assert!(lib_flags_visible(4));
    assert!(lib_flags_visible(0));
    assert!(lib_flags_visible(1));
    assert!(!lib_flags_visible(2));
    assert!(!lib_flags_visible(8));
}

fn guid(n: u32) -> Guid {
    Guid { data1: n, data2: 2, data3: 3, data4: 4 }
}

#[test]
fn round_trip_of_guid_and_version() {
    let attr = LibAttr { guid: guid(7), major_version: 2, minor_version: 1, flags: 4 };
    let h = resolve_by_guid_version("{7}", guid(7), 2, 1, attr, "Seven".to_string()).unwrap();
    assert_eq!(h.identifier(), guid(7));
    assert_eq!(h.major_version(), 2);
    assert_eq!(h.minor_version(), 1);
    assert_eq!(h.name(), "Seven");
    assert!(h.visible());
    let err = resolve_by_guid_version("{7}", guid(7), 2, 0, attr, String::new()).unwrap_err();
    assert!(matches!(err, Error::NotFound { .. }));
    let plain = LibraryHandle::new(LibAttr { flags: 2, ..attr }, String::new());
    assert!(!plain.visible());
}

#[test]
fn pointer_to_safearray_of_i4() {
    let desc = TypeDesc::Ptr(Box::new(TypeDesc::SafeArray(Box::new(TypeDesc::Scalar(3)))));
    let mut chain = Vec::new();
    assert_eq!(ole_typedesc2val(&desc, &mut chain), "I4");
    assert_eq!(chain, vec!["PTR", "SAFEARRAY", "I4"]);
    let mut again = Vec::new();
    assert_eq!(ole_typedesc2val(&desc, &mut again), "I4");
    assert_eq!(again, chain);
}

#[test]
fn unresolved_user_type_is_userdefined() {
    let mut chain = Vec::new();
    assert_eq!(ole_typedesc2val(&TypeDesc::UserDefined(None), &mut chain), "USERDEFINED");
    assert_eq!(chain, vec!["USERDEFINED"]);
}

#[test]
fn resolved_user_type_gives_its_name() {
    let mut chain = Vec::new();
    let desc = TypeDesc::Ptr(Box::new(TypeDesc::UserDefined(Some("Font".to_string()))));
    assert_eq!(ole_typedesc2val(&desc, &mut chain), "Font");
    assert_eq!(chain, vec!["PTR", "USERDEFINED", "Font"]);
}

#[test]
fn scalar_mnemonics() {
    assert_eq!(scalar_text(5), "R8");
    assert_eq!(scalar_text(8), "BSTR");
    assert_eq!(scalar_text(11), "BOOL");
    assert_eq!(scalar_text(36), "RECORD");
    assert_eq!(scalar_text(15), "Unknown Type 15");
    assert_eq!(scalar_text(0), "Unknown Type 0");
    assert_eq!(scalar_text(65535), "Unknown Type 65535");
}

#[test]
fn unresolvable_identifier_is_not_found() {
    let id = "Unregistered.Nonexistent.Library";
    let cat = sample_catalog();
    assert!(oletypelib_search_registry(&cat, id).is_empty());
    assert_eq!(oletypelib_search_registry2(&cat, id, "", ""), None);
    let err = not_found(id);
    let msg = err.message();
    assert!(msg.contains(id));
    assert_eq!(msg, "type library `Unregistered.Nonexistent.Library` not found");
}

#[test]
fn error_messages() {
    let e = Error::LoadFailed { path: "a.tlb".to_string(), detail: "bad".to_string() };
    assert_eq!(e.message(), "failed to load type library `a.tlb`: bad");
    let e = Error::AttributeUnavailable { detail: String::new() };
    assert_eq!(e.message(), "library attributes unavailable");
}

#[test]
fn session_initializes_once() {
    let mut s = OleSession::new(false);
    assert_eq!(ole_initialized(&mut s), SessionAction::Initialize(OleSetup::Ole));
    assert_eq!(ole_initialized(&mut s), SessionAction::Nothing);
    assert_eq!(s.release(), SessionAction::Uninitialize(OleSetup::Ole));
    assert_eq!(s.release(), SessionAction::Nothing);
    let mut c = OleSession::new(true);
    assert_eq!(ole_initialized(&mut c), SessionAction::Initialize(OleSetup::ComMultithreaded));
}

#[test]
fn first_locale_with_a_path_backs_a_display_name() {
    let cat = Catalog {
        libraries: vec![GuidEntry {
            guid: "{D}".to_string(),
            versions: vec![VersionEntry {
                version: "1.0".to_string(),
                display: Some("Dee".to_string()),
                locales: vec![paths(None, None, None), paths(Some("d64.tlb"), None, Some("d16.tlb"))],
            }],
        }],
    };
    assert_eq!(typelib_file_from_typelib(&cat, "Dee"), Some("d64.tlb".to_string()));
    assert_eq!(oletypelib_path(&cat, "{D}", "1.0"), None);
}

#[test]
fn zero_version_can_be_latest() {
    let vs = vec![version("0.0", Some("zero"), "z.tlb")];
    assert_eq!(select_latest(&vs), Some(0));
    assert_eq!(select_latest(&vec![]), None);
}

#[test]
fn plan_tries_names_then_guid_then_path() {
    let cat = sample_catalog();
    assert_eq!(resolution_plan(&cat, "Shared"), vec!["b.tlb", "c.tlb", "Shared"]);
    assert_eq!(resolution_plan(&cat, "{A}"), vec!["a2.tlb", "{A}"]);
    assert_eq!(
        resolution_plan(&cat, "Unregistered.Nonexistent.Library"),
        vec!["Unregistered.Nonexistent.Library"]
    );
}

#[test]
fn path_uses_first_matching_guid_and_version() {
    let cat = Catalog {
        libraries: vec![
            GuidEntry { guid: "{E}".to_string(), versions: vec![version("1.0", Some("e"), "first.tlb"), version("1.0", Some("e"), "second.tlb")] },
            GuidEntry { guid: "{E}".to_string(), versions: vec![version("1.0", Some("e"), "third.tlb")] },
        ],
    };
    assert_eq!(oletypelib_path(&cat, "{E}", "1.0"), Some("first.tlb".to_string()));
    assert_eq!(oletypelib_path(&cat, "{F}", "1.0"), None);
}

#[test]
fn long_fraction_reads_within_rounding() {
    let d = parse_loose_decimal("3.14159265358979323846264338e2");
    assert_eq!(d, LooseDecimal { mantissa: 314159265358979323, exponent: -15 });
    assert!((as_f64("3.14159265358979323846264338e2") - 314.159265358979323846).abs() < 1e-12);
}
