use ra2m_sim::module::{Area, AreaError, ImrMode, InvalidPattern, Properties, PropertiesOverride, UidGen};
use ra2m_sim::output::log::{Args as LogArgs, Category, Verbosity};
use ra2m_sim::output::trace::{Args as TraceArgs, Kind};
use ra2m_sim::path::{child_path, is_wildcard, path_key, split_path};

const GHZ: usize = 1_000_000_000;

fn leaf_area(parent: &Area, name: &str, uids: &mut UidGen) -> Area {
    Area::leaf(parent.child_properties(name, PropertiesOverride::default(), uids))
}

/// root / l1_* (9) / l2_* (9) / leaf_0 .. leaf_19
fn fake_hierarchy(uids: &mut UidGen) -> Area {
    let level1 = vec!["ABC", "DEF", "GHI", "JKL", "MNO", "PQR", "STU", "VWX", "YZ"];
    let level2 = vec!["abc", "def", "ghi", "jkl", "mno", "pqr", "stu", "vwx", "yz"];

    let mut root = Area::new(Properties::new("root".to_owned(), GHZ, uids));
    for l1 in level1.iter() {
        let name = format!("l1_{l1}");
        let mut lvl1 = Area::new(root.child_properties(&name, PropertiesOverride::default(), uids));

        for l2 in level2.iter() {
            let name = format!("l2_{l2}");
            let mut lvl2 = Area::new(lvl1.child_properties(&name, PropertiesOverride::default(), uids));

            for leaf in 0..20 {
                let name = format!("leaf_{leaf}");
                let m = leaf_area(&lvl2, &name, uids);
                lvl2.insert_module(m);
            }
            lvl1.insert_module(lvl2);
        }
        root.insert_module(lvl1);
    }
    root
}

fn search_len(root: &Area, path: &str) -> Result<usize, InvalidPattern> {
    let mut path_seg = split_path(path);
    let mode = if is_wildcard(&path_seg[path_seg.len() - 1]) {
        path_seg.pop();
        ImrMode::Wildcard
    } else {
        ImrMode::ExactMatch
    };
    root.inner_match_recurse(vec![0], &path_seg, mode).map(|v| v.len())
}

#[test]
fn test_area_recurse() {
    let mut uids = UidGen::new();
    let root = fake_hierarchy(&mut uids);

    let test_path = [
        ("l1_ABC::.*::leaf_1$", 9),
        ("l1_.*::l2_def::leaf_[1,2]$", 18),
        ("l1_.*::l2_def::leaf_[1,2]*$", 36),
        ("l1_PQR::l2_mno::*", 21),
        ("l1_PQR::l2_aqr::*", 0),
        ("l1_PQR::.*", 9),
        ("l1_(ABC|VWX)::.*", 18),
        ("l1_(ABC|VWX)", 2),
        ("l1_GH.::*", 190),
    ];

    for (path, match_len) in test_path {
        assert_eq!(Ok(match_len), search_len(&root, path).map_err(|e| e.0), "{path}");
    }
}

#[test]
fn hierarchy_has_every_module_once() {
    let mut uids = UidGen::new();
    let root = fake_hierarchy(&mut uids);
    assert_eq!(1 + 9 + 81 + 81 * 20, root.node_total());
    // A lone `*` reaches the whole hierarchy, the area itself included.
    assert_eq!(Ok(1 + 9 + 81 + 81 * 20), search_len(&root, "*").map_err(|e| e.0));
}

#[test]
fn invalid_segment_is_refused_only_when_searched() {
    let mut uids = UidGen::new();
    let root = fake_hierarchy(&mut uids);
    let err = search_len(&root, "l1_(ABC::.*").unwrap_err();
    assert_eq!("l1_(ABC", err.0);
    // No module is left to search below `l1_none`.
    assert_eq!(Ok(0), search_len(&root, "l1_none::l2_(::*").map_err(|e| e.0));
}

#[test]
fn child_properties_extend_the_path() {
    let mut uids = UidGen::new();
    let root = Area::new(Properties::new("root".to_owned(), GHZ, &mut uids));
    let props = root.child_properties("modA", PropertiesOverride::default(), &mut uids);
    assert_eq!("root::modA", props.path().as_str());
    assert_eq!(1, *props.uid());
    assert_eq!(GHZ, props.clock_domain());
    let fast = root.child_properties("modB", PropertiesOverride::new(Some(2 * GHZ)), &mut uids);
    assert_eq!(2, *fast.uid());
    assert_eq!(2 * GHZ, fast.clock_domain());
    assert_eq!(Verbosity::Info, props.log_filter().get(Category::Port));
    assert!(!props.hw_trace_on(Kind::Payload));
    assert!(!props.hw_trace_on(Kind::Pipeline));
}

#[test]
fn insert_module_replaces_a_module_of_the_same_name() {
    let mut uids = UidGen::new();
    let mut root = Area::new(Properties::new("root".to_owned(), GHZ, &mut uids));
    let first = leaf_area(&root, "modA", &mut uids);
    root.insert_module(first);
    let second = Area::leaf(root.child_properties("modA", PropertiesOverride::default(), &mut uids));
    root.insert_module(second);
    let found = root.get_port_from_str("modA::port_a").unwrap().unwrap();
    assert_eq!(2, root.uid(found.0));
    assert_eq!("port_a", found.1);
    assert_eq!(Ok(1), search_len(&root, "mod.*").map_err(|e| e.0));
}

#[test]
fn ports_resolve_through_exposing_areas() {
    let mut uids = UidGen::new();
    let mut root = Area::new(Properties::new("root".to_owned(), GHZ, &mut uids));
    let mut sub = Area::new(root.child_properties("sub", PropertiesOverride::default(), &mut uids));
    let leaf = leaf_area(&sub, "modB", &mut uids);
    sub.insert_module(leaf);
    sub.expose_port("rx".to_owned(), "modB".to_owned(), "port_b".to_owned());
    root.insert_module(sub);

    let (m, p) = root.get_port_from_str("sub::rx").unwrap().unwrap();
    assert_eq!("root::sub::modB", root.path(m).as_str());
    assert_eq!("port_b", p);

    // A port that the inner area does not expose.
    assert!(root.get_port_from_str("sub::tx").unwrap().is_none());
}

#[test]
fn get_port_from_str_errors() {
    let mut uids = UidGen::new();
    let mut root = Area::new(Properties::new("root".to_owned(), GHZ, &mut uids));
    let leaf = leaf_area(&root, "modA", &mut uids);
    root.insert_module(leaf);

    match root.get_port_from_str("modA::inner::port") {
        Err(AreaError::InDepth(area, s)) => {
            assert_eq!("root", area);
            assert_eq!("modA::inner::port", s);
        }
        other => panic!("unexpected {other:?}"),
    }
    match root.get_port_from_str("port_only") {
        Err(AreaError::InDepth(_, s)) => assert_eq!("port_only", s),
        other => panic!("unexpected {other:?}"),
    }
    match root.get_port_from_str("modC::port") {
        Err(AreaError::NoModule(area, m)) => {
            assert_eq!("root", area);
            assert_eq!("modC", m);
        }
        other => panic!("unexpected {other:?}"),
    }
}

#[test]
fn log_setting_reaches_matching_modules_only() {
    let mut uids = UidGen::new();
    let mut root = fake_hierarchy(&mut uids);
    let arg = LogArgs::new(
        "l1_PQR::l2_mno::*".to_owned(),
        Verbosity::Error,
        vec![(Category::Port, Verbosity::Debug)],
    );
    assert_eq!(Ok(21), root.apply_log_arg(&arg).map_err(|e| e.0));

    let mut hit = 0;
    for n in 0..root.node_total() {
        let f = root.log_filter(n);
        if root.path(n).starts_with("root::l1_PQR::l2_mno") {
            hit += 1;
            assert_eq!(Verbosity::Error, f.get(Category::Own));
            assert_eq!(Verbosity::Debug, f.get(Category::Port));
        } else {
            assert_eq!(Verbosity::Info, f.get(Category::Own));
            assert_eq!(Verbosity::Info, f.get(Category::Port));
        }
    }
    assert_eq!(21, hit);
}

#[test]
fn trace_setting_turns_kinds_on_and_off() {
    let mut uids = UidGen::new();
    let mut root = fake_hierarchy(&mut uids);
    let on = TraceArgs::new("l1_ABC::l2_abc".to_owned(), vec![(Kind::Payload, true), (Kind::Pipeline, true)]);
    assert_eq!(Ok(1), root.apply_trace_arg(&on).map_err(|e| e.0));
    let off = TraceArgs::new("l1_ABC::l2_.*".to_owned(), vec![(Kind::Pipeline, false)]);
    assert_eq!(Ok(9), root.apply_trace_arg(&off).map_err(|e| e.0));

    for n in 0..root.node_total() {
        let on_payload = root.path(n) == "root::l1_ABC::l2_abc";
        assert_eq!(on_payload, root.hw_trace_on(n, Kind::Payload), "{}", root.path(n));
        assert!(!root.hw_trace_on(n, Kind::Pipeline));
    }
}

#[test]
fn invalid_setting_changes_nothing() {
    let mut uids = UidGen::new();
    let mut root = fake_hierarchy(&mut uids);
    let arg = LogArgs::new("l1_[ABC::*".to_owned(), Verbosity::Error, vec![]);
    assert_eq!(Err("l1_[ABC".to_owned()), root.apply_log_arg(&arg).map_err(|e| e.0));
    for n in 0..root.node_total() {
        assert_eq!(Verbosity::Info, root.log_filter(n).get(Category::Any));
    }
}

#[test]
fn path_helpers() {
    assert_eq!(vec!["a", "b", "c"], split_path("a::b::c"));
    assert_eq!(vec!["a", "", "b"], split_path("a::::b"));
    assert_eq!(vec!["a", ":b"], split_path("a:::b"));
    assert_eq!(vec![""], split_path(""));
    assert_eq!(Some("c".to_owned()), path_key("a::b::c"));
    assert_eq!(Some("b".to_owned()), path_key("a:::b"));
    assert_eq!(None, path_key("abc"));
    assert_eq!("a::b", child_path("a", "b"));
    assert!(is_wildcard("*"));
    assert!(!is_wildcard(".*"));
}

#[test]
fn inner_bind_resolves_both_ends() {
    let mut uids = UidGen::new();
    let mut root = Area::new(Properties::new("root".to_owned(), GHZ, &mut uids));
    let a = leaf_area(&root, "modA", &mut uids);
    root.insert_module(a);
    let b = leaf_area(&root, "modB", &mut uids);
    root.insert_module(b);
    let (from, to) = root.inner_bind("modA::port_a", "modB::port_b").unwrap();
    let (fm, fp) = from.unwrap();
    let (tm, tp) = to.unwrap();
    assert_eq!("root::modA", root.path(fm).as_str());
    assert_eq!("port_a", fp);
    assert_eq!("root::modB", root.path(tm).as_str());
    assert_eq!("port_b", tp);
    match root.inner_bind("modA::port_a", "modX::port_b") {
        Err(AreaError::NoModule(_, m)) => assert_eq!("modX", m),
        other => panic!("unexpected {other:?}"),
    }
    match root.inner_bind("modA", "modX::port_b") {
        Err(AreaError::InDepth(_, s)) => assert_eq!("modA", s),
        other => panic!("unexpected {other:?}"),
    }
}
