use ra2m_sim::output::log::{Args as LogArgs, Category, Verbosity};
use ra2m_sim::output::setting::ArgsError;
use ra2m_sim::output::trace::{Args as TraceArgs, Kind};
use ra2m_sim::text::{split_char, split_once_char, trim_text};
use ra2m_sim::time::TimingMode;

fn log(s: &str) -> Result<LogArgs, ArgsError> {
    assert!(LogArgs::reads(s), "{s}");
    LogArgs::from_str(s)
}

fn trace(s: &str) -> Result<TraceArgs, ArgsError> {
    assert!(TraceArgs::reads(s), "{s}");
    TraceArgs::from_str(s)
}

#[test]
fn log_setting_with_overrides() {
    let a = log("root::cpu.*::*=Warning:{Port:Debug, Scheduler : Error,}").unwrap();
    assert_eq!("root::cpu.*::*", a.path().as_str());
    assert_eq!(Verbosity::Warning, *a.dflt_verb());
    assert_eq!(
        &vec![(Category::Port, Verbosity::Debug), (Category::Scheduler, Verbosity::Error)],
        a.cat_verb()
    );
    let f = a.filter();
    assert_eq!(Verbosity::Debug, f.get(Category::Port));
    assert_eq!(Verbosity::Error, f.get(Category::Scheduler));
    assert_eq!(Verbosity::Warning, f.get(Category::Own));
}

#[test]
fn log_setting_without_overrides() {
    let a = log("root=Info:").unwrap();
    assert_eq!("root", a.path().as_str());
    assert_eq!(Verbosity::Info, *a.dflt_verb());
    assert!(a.cat_verb().is_empty());
    let b = log("root= Debug :{}").unwrap();
    assert_eq!(Verbosity::Debug, *b.dflt_verb());
    assert!(b.cat_verb().is_empty());
}

#[test]
fn log_setting_errors() {
    assert_eq!(ArgsError::Assignment, log("root").unwrap_err());
    assert_eq!(ArgsError::Assignment, log("a=b=Info:").unwrap_err());
    assert_eq!(ArgsError::Pair, log("root=Info:{Port}").unwrap_err());
    assert_eq!(ArgsError::Pair, log("root=Info:{Port:Debug:Info}").unwrap_err());
}

#[test]
fn log_settings_that_do_not_read() {
    // No `:` after the default verbosity, an unknown name, missing braces.
    assert!(!LogArgs::reads("root=Info"));
    assert!(!LogArgs::reads("root=Loud:"));
    assert!(!LogArgs::reads("root=Info:{Disk:Debug}"));
    assert!(!LogArgs::reads("root=Info:Port:Debug"));
    assert!(!LogArgs::reads("root=Info:{Port:debug}"));
    // An error before the unknown name is still reported.
    assert!(LogArgs::reads("root=Info:{Port,Disk:Debug}"));
}

#[test]
fn trace_setting_reads_entries() {
    let a = trace("root::.*={Payload:true, Pipeline:false,}").unwrap();
    assert_eq!("root::.*", a.path().as_str());
    assert_eq!(&vec![(Kind::Payload, true), (Kind::Pipeline, false)], a.kind_val());
    let b = trace("root={}").unwrap();
    assert!(b.kind_val().is_empty());
}

#[test]
fn trace_setting_errors() {
    assert_eq!(ArgsError::Assignment, trace("root{Payload:true}").unwrap_err());
    assert_eq!(ArgsError::Pair, trace("root={Payload}").unwrap_err());
    // The value is not trimmed: ` true` is not a boolean.
    assert!(!TraceArgs::reads("root={Payload: true}"));
    assert!(!TraceArgs::reads("root=Payload:true"));
    assert!(!TraceArgs::reads("root={Disk:true}"));
}

#[test]
fn timing_modes_by_name() {
    for name in ["LT", "lt", "LooselyTimed", "Loosely"] {
        assert_eq!(Ok(TimingMode::LT), TimingMode::from_str(name));
    }
    for name in ["AT", "at", "ApproxTimed", "Approx"] {
        assert_eq!(Ok(TimingMode::AT), TimingMode::from_str(name));
    }
    assert!(TimingMode::from_str("Lt").is_err());
    assert!(TimingMode::from_str("").is_err());
}

#[test]
fn text_helpers_follow_str() {
    for (s, c) in [("a,b,,c", ','), ("", ','), (",", ','), ("abc", ':'), ("é:ü:", ':')] {
        let expected: Vec<String> = s.split(c).map(|x| x.to_owned()).collect();
        assert_eq!(expected, split_char(s, c));
        let once = s.split_once(c).map(|(a, b)| (a.to_owned(), b.to_owned()));
        assert_eq!(once, split_once_char(s, c));
    }
    for s in ["  a b \t", "\u{3000}x\u{2009}", "   ", "", "x", "\u{85}y\u{a0}"] {
        assert_eq!(s.trim(), trim_text(s));
    }
}

#[test]
fn log_setting_reads_the_documented_pair_form() {
    let s = "regionA::SubregionB::CpnC=Info:{Port,Debug}";
    assert!(LogArgs::reads(s));
    let a = LogArgs::from_str(s).unwrap();
    assert_eq!(a.path(), "regionA::SubregionB::CpnC");
    assert_eq!(*a.dflt_verb(), Verbosity::Info);
    assert_eq!(*a.cat_verb(), vec![(Category::Port, Verbosity::Debug)]);
    let mixed = LogArgs::from_str("root=Warning:{Own:Error, Port,Debug}").unwrap();
    assert_eq!(*mixed.cat_verb(), vec![(Category::Own, Verbosity::Error), (Category::Port, Verbosity::Debug)]);
    assert!(matches!(LogArgs::from_str("root=Info:{Port}"), Err(ArgsError::Pair)));
}

#[test]
fn malformed_settings_are_errors() {
    for s in ["root=Info", "root=Loud:{}", "root=Info:{Nope:Debug}", "root=Info:Port:Debug"] {
        assert_eq!(Err(ArgsError::Malformed), LogArgs::from_str(s).map(|_| ()), "{s}");
        assert_eq!(Err(ArgsError::Malformed), s.parse::<LogArgs>().map(|_| ()), "{s}");
    }
    assert_eq!(Err(ArgsError::Assignment), "root".parse::<LogArgs>().map(|_| ()));
    assert_eq!(Err(ArgsError::Assignment), "a=b=Info:{}".parse::<LogArgs>().map(|_| ()));
    for s in ["root=Payload:true", "root={Disk:true}", "root={Payload:yes}"] {
        assert_eq!(Err(ArgsError::Malformed), TraceArgs::from_str(s).map(|_| ()), "{s}");
        assert_eq!(Err(ArgsError::Malformed), s.parse::<TraceArgs>().map(|_| ()), "{s}");
    }
    let parsed: LogArgs = "root=Warning:{Port:Debug}".parse().unwrap();
    assert_eq!(*parsed.dflt_verb(), Verbosity::Warning);
    let traced: TraceArgs = "root={Payload:true}".parse().unwrap();
    assert_eq!(*traced.kind_val(), vec![(Kind::Payload, true)]);
}
