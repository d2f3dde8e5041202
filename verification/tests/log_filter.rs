use ra2m_sim::output::log::{Category, LogFilter, Verbosity};
use ra2m_sim::output::trace::Kind;

#[test]
fn test_log_filter() {
    let mut lf: LogFilter = Default::default();

    // Test should_log function
    for verb in Verbosity::iter() {
        for cat in Category::iter() {
            lf.set(cat, verb);

            for use_verb in Verbosity::iter() {
                assert_eq!(use_verb >= lf.get(cat), lf.should_log(cat, use_verb));
            }
        }
    }

    // test replace function
    lf.replace(&LogFilter::new(Verbosity::Warning));
    for cat in Category::iter() {
        assert_eq!(lf.get(cat), Verbosity::Warning);
    }
}

#[test]
fn default_filter_logs_from_info() {
    let lf = LogFilter::default();
    for cat in Category::iter() {
        assert_eq!(lf.get(cat), Verbosity::Info);
        assert!(!lf.should_log(cat, Verbosity::Trace));
        assert!(lf.should_log(cat, Verbosity::Info));
        assert!(lf.should_log(cat, Verbosity::Error));
    }
}

#[test]
fn set_changes_one_category_only() {
    let mut lf = LogFilter::new(Verbosity::Error);
    lf.set(Category::Port, Verbosity::Debug);
    assert!(lf.should_log(Category::Port, Verbosity::Debug));
    assert!(!lf.should_log(Category::Own, Verbosity::Warning));
    assert_eq!(lf.get(Category::Any), Verbosity::Error);
}

#[test]
fn indexes_follow_declaration_order() {
    assert_eq!(Category::Own.as_index(), 0);
    assert_eq!(Category::Any.as_index(), 5);
    assert_eq!(Verbosity::Debug.as_index(), 0);
    assert_eq!(Verbosity::Error.as_index(), 4);
    assert_eq!(Kind::Payload.as_index(), 0);
    assert_eq!(Kind::Pipeline.as_index(), 1);
    assert_eq!(Kind::iter(), vec![Kind::Payload, Kind::Pipeline]);
    assert_eq!(Verbosity::default(), Verbosity::Info);
    assert_eq!(Category::default(), Category::Any);
}

#[test]
fn errors_pass_every_filter() {
    for lowest in Verbosity::iter() {
        let lf = LogFilter::new(lowest);
        for cat in Category::iter() {
            assert!(lf.should_log(cat, Verbosity::Error));
        }
    }
}

#[test]
fn logged_levels_extend_upward() {
    let lf = LogFilter::new(Verbosity::Trace);
    assert!(!lf.should_log(Category::Test, Verbosity::Debug));
    assert!(lf.should_log(Category::Test, Verbosity::Trace));
    assert!(lf.should_log(Category::Test, Verbosity::Info));
    assert!(lf.should_log(Category::Test, Verbosity::Warning));
}
