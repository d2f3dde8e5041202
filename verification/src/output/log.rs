//! Log filtering: each message has a category and a verbosity, and a filter
//! holds, for each category, the lowest verbosity that is logged.

use vstd::prelude::*;
use crate::output::setting::{ArgsError, braced, braced_entries, no_entries};
use crate::text::{same_text, split_char, split_once_char, split_on, split_once_on, trim_spaces, trim_text};
use vstd::string::StrSliceExecFns;

verus! {

/// Verbosity of a log message, from the most verbose to the least.
/// `Error` is the greatest one.
#[derive(Debug, Copy, Clone, PartialEq, Eq, Structural, PartialOrd)]
pub enum Verbosity {
    Debug,
    Trace,
    Info,
    Warning,
    Error,
}

impl Verbosity {
    /// Position of the verbosity in the order `Debug < Trace < Info < Warning < Error`.
    pub open spec fn rank(self) -> nat {
        match self {
            Verbosity::Debug => 0,
            Verbosity::Trace => 1,
            Verbosity::Info => 2,
            Verbosity::Warning => 3,
            Verbosity::Error => 4,
        }
    }

    /// Position of the verbosity in the order `Debug < Trace < Info < Warning < Error`.
    pub fn as_index(&self) -> (r: usize)
        ensures
            r == self.rank(),
    {
        match self {
            Verbosity::Debug => 0,
            Verbosity::Trace => 1,
            Verbosity::Info => 2,
            Verbosity::Warning => 3,
            Verbosity::Error => 4,
        }
    }

    /// Every verbosity, in increasing order.
    pub fn iter() -> (r: Vec<Verbosity>)
        ensures
            r@ == seq![
                Verbosity::Debug,
                Verbosity::Trace,
                Verbosity::Info,
                Verbosity::Warning,
                Verbosity::Error,
            ],
    {
        vec![Verbosity::Debug, Verbosity::Trace, Verbosity::Info, Verbosity::Warning, Verbosity::Error]
    }
}

impl Default for Verbosity {
    fn default() -> (r: Self)
        ensures
            r == Verbosity::Info,
    {
        Verbosity::Info
    }
}

/// Number of log categories.
pub const CATEGORY_COUNT: usize = 6;

/// Category of a log message.
#[derive(Debug, Copy, Clone, PartialEq, Eq, Structural)]
pub enum Category {
    /// Module messages
    Own,
    /// Port messages
    Port,
    /// Protocol/payload messages
    Protocol,
    /// Scheduler messages
    Scheduler,
    /// Test messages
    Test,
    /// Messages that fit in no other category
    Any,
}

impl Category {
    /// Position of the category in the declaration order.
    pub open spec fn index(self) -> nat {
        match self {
            Category::Own => 0,
            Category::Port => 1,
            Category::Protocol => 2,
            Category::Scheduler => 3,
            Category::Test => 4,
            Category::Any => 5,
        }
    }

    /// Position of the category, used as index in a log filter.
    pub fn as_index(&self) -> (r: usize)
        ensures
            r == self.index(),
            r < CATEGORY_COUNT,
    {
        match self {
            Category::Own => 0,
            Category::Port => 1,
            Category::Protocol => 2,
            Category::Scheduler => 3,
            Category::Test => 4,
            Category::Any => 5,
        }
    }

    /// Every category, in declaration order.
    pub fn iter() -> (r: Vec<Category>)
        ensures
            r@ == seq![
                Category::Own,
                Category::Port,
                Category::Protocol,
                Category::Scheduler,
                Category::Test,
                Category::Any,
            ],
    {
        vec![
            Category::Own,
            Category::Port,
            Category::Protocol,
            Category::Scheduler,
            Category::Test,
            Category::Any,
        ]
    }
}

impl Default for Category {
    fn default() -> (r: Self)
        ensures
            r == Category::Any,
    {
        Category::Any
    }
}

/// A log setting for the modules whose path matches `path`: a default
/// verbosity and per category overrides.
#[derive(Debug, Clone)]
pub struct Args {
    path: String,
    dflt_verb: Verbosity,
    cat_verb: Vec<(Category, Verbosity)>,
}

impl Args {
    pub closed spec fn spec_path(&self) -> Seq<char> {
        self.path@
    }

    pub closed spec fn spec_dflt_verb(&self) -> Verbosity {
        self.dflt_verb
    }

    pub closed spec fn spec_cat_verb(&self) -> Seq<(Category, Verbosity)> {
        self.cat_verb@
    }

    pub fn new(path: String, dflt_verb: Verbosity, cat_verb: Vec<(Category, Verbosity)>) -> (r: Self)
        ensures
            r.spec_path() == path@,
            r.spec_dflt_verb() == dflt_verb,
            r.spec_cat_verb() == cat_verb@,
    {
        Args { path, dflt_verb, cat_verb }
    }

    pub fn path(&self) -> (r: &String)
        ensures
            r@ == self.spec_path(),
    {
        &self.path
    }

    pub fn dflt_verb(&self) -> (r: &Verbosity)
        ensures
            *r == self.spec_dflt_verb(),
    {
        &self.dflt_verb
    }

    pub fn cat_verb(&self) -> (r: &Vec<(Category, Verbosity)>)
        ensures
            r@ == self.spec_cat_verb(),
    {
        &self.cat_verb
    }

    /// Read a log setting, as `log_setting` does.
    fn read(s: &str) -> (r: Option<Result<Args, ArgsError>>)
        ensures
            match log_setting(s@) {
                None => r is None,
                Some(Err(e)) => r == Some(Err::<Args, ArgsError>(e)),
                Some(Ok(t)) => r matches Some(Ok(a)) && a.spec_path() == t.0 && a.spec_dflt_verb()
                    == t.1 && a.spec_cat_verb() == t.2,
            },
    {
        let parts = split_char(s, '=');
        if parts.len() != 2 {
            return Some(Err(ArgsError::Assignment));
        }
        let path = parts[0].clone();
        let (dflt, rest) = match split_once_char(parts[1].as_str(), ':') {
            Some(p) => p,
            None => {
                return None;
            },
        };
        let dflt_verb = match verbosity_from(trim_text(dflt.as_str()).as_str()) {
            Some(v) => v,
            None => {
                return None;
            },
        };
        if no_entries(rest.as_str()) {
            return Some(Ok(Args { path, dflt_verb, cat_verb: Vec::new() }));
        }
        let items = match braced_entries(rest.as_str()) {
            Some(v) => v,
            None => {
                return None;
            },
        };
        match read_cat_verb(&items) {
            None => None,
            Some(Err(e)) => Some(Err(e)),
            Some(Ok(cat_verb)) => Some(Ok(Args { path, dflt_verb, cat_verb })),
        }
    }

    /// Whether `s` is a log setting that reads without failing: its parts
    /// are where the syntax puts them and its names are known.
    pub fn reads(s: &str) -> (r: bool)
        ensures
            r == log_setting_reads(s@),
    {
        Self::read(s).is_some()
    }

    /// Parse a log setting `path=verbosity:{category:verbosity, ...}`, where
    /// an override may also be written `category,verbosity` (the braces may
    /// be left out when there is no override). A string without
    /// exactly one `=`, or with an override that is not a pair, is refused;
    /// any other malformed setting gives `Malformed`.
    pub fn from_str(s: &str) -> (r: Result<Args, ArgsError>)
        ensures
            match log_setting(s@) {
                Some(Ok(t)) => r matches Ok(a) && a.spec_path() == t.0 && a.spec_dflt_verb() == t.1
                    && a.spec_cat_verb() == t.2,
                Some(Err(e)) => r == Err::<Args, ArgsError>(e),
                None => r == Err::<Args, ArgsError>(ArgsError::Malformed),
            },
    {
        match Self::read(s) {
            Some(r) => r,
            None => Err(ArgsError::Malformed),
        }
    }

    /// The filter that the setting describes: the default verbosity, then
    /// each override in order.
    pub fn filter(&self) -> (r: LogFilter)
        ensures
            r@ == filter_of(self.spec_dflt_verb(), self.spec_cat_verb()),
    {
        let mut filter = LogFilter::new(self.dflt_verb);
        let mut i: usize = 0;
        proof {
            assert(self.cat_verb@.take(0) =~= Seq::<(Category, Verbosity)>::empty());
            assert(filter@ =~= filter_of(self.dflt_verb, self.cat_verb@.take(0)));
        }
        while i < self.cat_verb.len()
            invariant
                0 <= i <= self.cat_verb.len(),
                filter@ == filter_of(self.dflt_verb, self.cat_verb@.take(i as int)),
            decreases self.cat_verb.len() - i,
        {
            let (cat, verb) = self.cat_verb[i];
            filter.set(cat, verb);
            proof {
                assert(self.cat_verb@.take(i + 1).drop_last() =~= self.cat_verb@.take(i as int));
            }
            i = i + 1;
        }
        proof {
            assert(self.cat_verb@.take(i as int) =~= self.cat_verb@);
        }
        filter
    }
}

impl std::str::FromStr for Args {
    type Err = ArgsError;

    /// Parse a setting, as `Args::from_str` does.
    fn from_str(s: &str) -> Result<Args, ArgsError> {
        Args::from_str(s)
    }
}

/// The verbosity of that name.
pub open spec fn verbosity_named(s: Seq<char>) -> Option<Verbosity> {
    if s == "Debug"@ {
        Some(Verbosity::Debug)
    } else if s == "Trace"@ {
        Some(Verbosity::Trace)
    } else if s == "Info"@ {
        Some(Verbosity::Info)
    } else if s == "Warning"@ {
        Some(Verbosity::Warning)
    } else if s == "Error"@ {
        Some(Verbosity::Error)
    } else {
        None
    }
}

/// The category of that name.
pub open spec fn category_named(s: Seq<char>) -> Option<Category> {
    if s == "Own"@ {
        Some(Category::Own)
    } else if s == "Port"@ {
        Some(Category::Port)
    } else if s == "Protocol"@ {
        Some(Category::Protocol)
    } else if s == "Scheduler"@ {
        Some(Category::Scheduler)
    } else if s == "Test"@ {
        Some(Category::Test)
    } else if s == "Any"@ {
        Some(Category::Any)
    } else {
        None
    }
}

/// The overrides of a log setting, read from left to right: an entry
/// `Category:Verbosity` is one override, and so are two entries
/// `Category,Verbosity` that hold no `:`; empty entries are skipped, an
/// entry that is neither is refused, and an unknown name makes the reading
/// fail (`None`).
pub open spec fn cat_verb_items(items: Seq<Seq<char>>) -> Option<
    Result<Seq<(Category, Verbosity)>, ArgsError>,
>
    decreases items.len(),
{
    if items.len() == 0 {
        Some(Ok(Seq::empty()))
    } else if items[0].len() == 0 {
        cat_verb_items(items.skip(1))
    } else {
        let pair = split_on(items[0], ':');
        if pair.len() == 1 && items.len() >= 2 && items[1].len() != 0 && split_on(items[1], ':').len()
            == 1 {
            match (
                category_named(trim_spaces(pair[0])),
                verbosity_named(trim_spaces(split_on(items[1], ':')[0])),
            ) {
                (Some(c), Some(v)) => match cat_verb_items(items.skip(2)) {
                    Some(Ok(rest)) => Some(Ok(seq![(c, v)] + rest)),
                    other => other,
                },
                _ => None,
            }
        } else if pair.len() != 2 {
            Some(Err(ArgsError::Pair))
        } else {
            match (category_named(trim_spaces(pair[0])), verbosity_named(trim_spaces(pair[1]))) {
                (Some(c), Some(v)) => match cat_verb_items(items.skip(1)) {
                    Some(Ok(rest)) => Some(Ok(seq![(c, v)] + rest)),
                    other => other,
                },
                _ => None,
            }
        }
    }
}

/// A log setting `path=verbosity:{category:verbosity, ...}` read as its
/// path, default verbosity and overrides. `None` where the reading fails on
/// a malformed part that the setting syntax does not report as an error: a
/// missing `:`, an unknown name, missing braces.
pub open spec fn log_setting(s: Seq<char>) -> Option<
    Result<(Seq<char>, Verbosity, Seq<(Category, Verbosity)>), ArgsError>,
> {
    let parts = split_on(s, '=');
    if parts.len() != 2 {
        Some(Err(ArgsError::Assignment))
    } else {
        match split_once_on(parts[1], ':') {
            None => None,
            Some(dc) => match verbosity_named(trim_spaces(dc.0)) {
                None => None,
                Some(dflt) => if dc.1.len() == 0 || dc.1 == "{}"@ {
                    Some(Ok((parts[0], dflt, Seq::empty())))
                } else {
                    match braced(dc.1) {
                        None => None,
                        Some(items) => match cat_verb_items(items) {
                            None => None,
                            Some(Err(e)) => Some(Err(e)),
                            Some(Ok(cv)) => Some(Ok((parts[0], dflt, cv))),
                        },
                    }
                },
            },
        }
    }
}

/// Whether `t` is a log setting that reads without failing.
pub open spec fn log_setting_reads(t: Seq<char>) -> bool {
    log_setting(t) is Some
}

/// The verbosity named `s`.
pub fn verbosity_from(s: &str) -> (r: Option<Verbosity>)
    ensures
        r == verbosity_named(s@),
{
    if same_text(s, "Debug") {
        Some(Verbosity::Debug)
    } else if same_text(s, "Trace") {
        Some(Verbosity::Trace)
    } else if same_text(s, "Info") {
        Some(Verbosity::Info)
    } else if same_text(s, "Warning") {
        Some(Verbosity::Warning)
    } else if same_text(s, "Error") {
        Some(Verbosity::Error)
    } else {
        None
    }
}

/// The category named `s`.
pub fn category_from(s: &str) -> (r: Option<Category>)
    ensures
        r == category_named(s@),
{
    if same_text(s, "Own") {
        Some(Category::Own)
    } else if same_text(s, "Port") {
        Some(Category::Port)
    } else if same_text(s, "Protocol") {
        Some(Category::Protocol)
    } else if same_text(s, "Scheduler") {
        Some(Category::Scheduler)
    } else if same_text(s, "Test") {
        Some(Category::Test)
    } else if same_text(s, "Any") {
        Some(Category::Any)
    } else {
        None
    }
}

/// Read the overrides, as `cat_verb_items` does.
fn read_cat_verb(items: &Vec<String>) -> (r: Option<Result<Vec<(Category, Verbosity)>, ArgsError>>)
    ensures
        match cat_verb_items(items@.map_values(|x: String| x@)) {
            None => r is None,
            Some(Err(e)) => r == Some(Err::<Vec<(Category, Verbosity)>, ArgsError>(e)),
            Some(Ok(cv)) => r matches Some(Ok(v)) && v@ == cv,
        },
{
    let ghost iv = items@.map_values(|x: String| x@);
    let mut cv: Vec<(Category, Verbosity)> = Vec::new();
    let mut k: usize = 0;
    proof {
        assert(iv.skip(0) =~= iv);
    }
    while k < items.len()
        invariant
            iv == items@.map_values(|x: String| x@),
            0 <= k <= items.len(),
            cat_verb_items(iv) == match cat_verb_items(iv.skip(k as int)) {
                Some(Ok(rest)) => Some(Ok(cv@ + rest)),
                other => other,
            },
        decreases items.len() - k,
    {
        let ghost rest = iv.skip(k as int);
        proof {
            assert(rest[0] == items@[k as int]@);
            assert(rest.skip(1) =~= iv.skip(k + 1));
        }
        let item = items[k].as_str();
        if item.unicode_len() == 0 {
            k = k + 1;
            continue;
        }
        let pair = split_char(item, ':');
        if pair.len() == 1 && k + 1 < items.len() {
            let next = items[k + 1].as_str();
            let pair2 = split_char(next, ':');
            if next.unicode_len() != 0 && pair2.len() == 1 {
                proof {
                    assert(rest[1] == items@[k + 1]@);
                    assert(rest.skip(2) =~= iv.skip(k + 2));
                    assert(split_on(rest[0], ':')[0] == pair@[0]@);
                    assert(split_on(rest[1], ':')[0] == pair2@[0]@);
                }
                let cat = category_from(trim_text(pair[0].as_str()).as_str());
                let verb = verbosity_from(trim_text(pair2[0].as_str()).as_str());
                match (cat, verb) {
                    (Some(c), Some(v)) => {
                        let ghost before = cv@;
                        cv.push((c, v));
                        proof {
                            assert forall|tail: Seq<(Category, Verbosity)>| #[trigger] (cv@ + tail) == before
                                + (seq![(c, v)] + tail) by {
                                assert(cv@ + tail =~= before + (seq![(c, v)] + tail));
                            }
                        }
                    },
                    _ => {
                        return None;
                    },
                }
                k = k + 2;
                continue;
            }
        }
        if pair.len() != 2 {
            return Some(Err(ArgsError::Pair));
        }
        proof {
            assert(split_on(rest[0], ':')[0] == pair@[0]@);
            assert(split_on(rest[0], ':')[1] == pair@[1]@);
        }
        let cat = category_from(trim_text(pair[0].as_str()).as_str());
        let verb = verbosity_from(trim_text(pair[1].as_str()).as_str());
        match (cat, verb) {
            (Some(c), Some(v)) => {
                let ghost before = cv@;
                cv.push((c, v));
                proof {
                    assert forall|tail: Seq<(Category, Verbosity)>| #[trigger] (cv@ + tail) == before + (
                    seq![(c, v)] + tail) by {
                        assert(cv@ + tail =~= before + (seq![(c, v)] + tail));
                    }
                }
            },
            _ => {
                return None;
            },
        }
        k = k + 1;
    }
    proof {
        assert(iv.skip(k as int) =~= Seq::<Seq<char>>::empty());
        assert(cv@ + Seq::<(Category, Verbosity)>::empty() =~= cv@);
    }
    Some(Ok(cv))
}

/// Levels by category index: `dflt` everywhere, then the overrides applied
/// in order.
pub open spec fn filter_of(dflt: Verbosity, cat_verb: Seq<(Category, Verbosity)>) -> Seq<Verbosity>
    decreases cat_verb.len(),
{
    if cat_verb.len() == 0 {
        Seq::new(CATEGORY_COUNT as nat, |i: int| dflt)
    } else {
        filter_of(dflt, cat_verb.drop_last()).update(
            cat_verb.last().0.index() as int,
            cat_verb.last().1,
        )
    }
}

/// For each category, the lowest verbosity that is logged.
#[derive(Debug, Clone)]
pub struct LogFilter {
    bank: [Verbosity; CATEGORY_COUNT],
}

impl LogFilter {
    /// The lowest verbosity logged for each category, by category index.
    pub closed spec fn view(&self) -> Seq<Verbosity> {
        self.bank@
    }

    /// A filter covers every category.
    pub proof fn lemma_covers_categories(&self)
        ensures
            self@.len() == CATEGORY_COUNT,
    {
    }

    /// The lowest verbosity logged for a category.
    pub open spec fn level(&self, category: Category) -> Verbosity {
        self@[category.index() as int]
    }

    /// A filter that logs from `dflt_verbosity` on in every category.
    pub fn new(dflt_verbosity: Verbosity) -> (r: Self)
        ensures
            r@.len() == CATEGORY_COUNT,
            forall|i: int| 0 <= i < CATEGORY_COUNT ==> #[trigger] r@[i] == dflt_verbosity,
            forall|c: Category| #[trigger] r.level(c) == dflt_verbosity,
    {
        let bank = [dflt_verbosity; CATEGORY_COUNT];
        proof {
            assert(bank@.len() == CATEGORY_COUNT);
        }
        LogFilter { bank }
    }

    /// The lowest verbosity logged for `category`.
    pub fn get(&self, category: Category) -> (r: Verbosity)
        ensures
            r == self.level(category),
    {
        self.bank[category.as_index()]
    }

    /// Log `category` from `verbosity` on.
    pub fn set(&mut self, category: Category, verbosity: Verbosity)
        ensures
            final(self)@ == old(self)@.update(category.index() as int, verbosity),
            final(self).level(category) == verbosity,
            forall|c: Category| c != category ==> #[trigger] final(self).level(c) == old(self).level(c),
    {
        let i = category.as_index();
        self.bank[i] = verbosity;
        proof {
            assert forall|c: Category| c != category implies #[trigger] self.level(c) == old(self).level(c) by {
                assert(c.index() != category.index());
            }
        }
    }

    /// Take over the levels of `filter` for every category.
    pub fn replace(&mut self, filter: &LogFilter)
        ensures
            final(self)@ == filter@,
            forall|c: Category| #[trigger] final(self).level(c) == filter.level(c),
    {
        let cats = Category::iter();
        let mut k: usize = 0;
        while k < cats.len()
            invariant
                0 <= k <= cats.len(),
                cats@ == seq![
                    Category::Own,
                    Category::Port,
                    Category::Protocol,
                    Category::Scheduler,
                    Category::Test,
                    Category::Any,
                ],
                self.bank@.len() == CATEGORY_COUNT,
                filter.bank@.len() == CATEGORY_COUNT,
                forall|i: int| 0 <= i < k ==> self.bank@[i] == filter.bank@[i],
            decreases cats.len() - k,
        {
            let cat = cats[k];
            let i = cat.as_index();
            self.bank[i] = filter.bank[i];
            proof {
                assert(i == k);
            }
            k = k + 1;
        }
        proof {
            assert(self.bank@ =~= filter.bank@);
        }
    }

    /// A message of `category` at `verbosity` passes the filter.
    pub open spec fn logs(&self, category: Category, verbosity: Verbosity) -> bool {
        self.level(category).rank() <= verbosity.rank()
    }

    /// Whether a message of `category` at `verbosity` is logged.
    pub fn should_log(&self, category: Category, verbosity: Verbosity) -> (r: bool)
        ensures
            r == self.logs(category, verbosity),
    {
        self.bank[category.as_index()].as_index() <= verbosity.as_index()
    }

    /// Errors cannot be filtered out: whatever the filter, an `Error`
    /// message of any category is logged.
    pub proof fn law_errors_always_logged(&self, category: Category)
        ensures
            self.logs(category, Verbosity::Error),
    {
    }

    /// A filter lets through everything above a level it lets through: when
    /// a message of `category` at `verbosity` is logged, so is one at any
    /// greater verbosity.
    pub proof fn law_logs_upward(&self, category: Category, verbosity: Verbosity, above: Verbosity)
        requires
            self.logs(category, verbosity),
            verbosity.rank() <= above.rank(),
        ensures
            self.logs(category, above),
    {
    }
}

impl Default for LogFilter {
    fn default() -> (r: Self)
        ensures
            forall|c: Category| #[trigger] r.level(c) == Verbosity::Info,
    {
        Self::new(Verbosity::Info)
    }
}

/// The name of a verbosity in a setting: the name of its variant.
pub open spec fn verbosity_name(v: Verbosity) -> Seq<char> {
    match v {
        Verbosity::Debug => "Debug"@,
        Verbosity::Trace => "Trace"@,
        Verbosity::Info => "Info"@,
        Verbosity::Warning => "Warning"@,
        Verbosity::Error => "Error"@,
    }
}

/// The name of a category in a setting: the name of its variant.
pub open spec fn category_name(c: Category) -> Seq<char> {
    match c {
        Category::Own => "Own"@,
        Category::Port => "Port"@,
        Category::Protocol => "Protocol"@,
        Category::Scheduler => "Scheduler"@,
        Category::Test => "Test"@,
        Category::Any => "Any"@,
    }
}

/// Reading the name of a verbosity gives that verbosity back, and a text
/// reads as a verbosity only when it is that verbosity's name: names and
/// verbosities correspond one to one.
pub proof fn law_verbosity_names(v: Verbosity, s: Seq<char>)
    ensures
        verbosity_named(verbosity_name(v)) == Some(v),
        verbosity_named(s) == Some(v) ==> s == verbosity_name(v),
{
    reveal_strlit("Debug");
    reveal_strlit("Trace");
    reveal_strlit("Info");
    reveal_strlit("Warning");
    reveal_strlit("Error");
    assert("Debug"@[0] == 'D' && "Trace"@[0] == 'T' && "Info"@[0] == 'I' && "Warning"@[0] == 'W'
        && "Error"@[0] == 'E');
}

/// Reading the name of a category gives that category back, and a text
/// reads as a category only when it is that category's name.
pub proof fn law_category_names(c: Category, s: Seq<char>)
    ensures
        category_named(category_name(c)) == Some(c),
        category_named(s) == Some(c) ==> s == category_name(c),
{
    reveal_strlit("Own");
    reveal_strlit("Port");
    reveal_strlit("Protocol");
    reveal_strlit("Scheduler");
    reveal_strlit("Test");
    reveal_strlit("Any");
    assert("Own"@[0] == 'O' && "Port"@[0] == 'P' && "Protocol"@[0] == 'P' && "Scheduler"@[0] == 'S'
        && "Test"@[0] == 'T' && "Any"@[0] == 'A');
    assert("Port"@.len() == 4 && "Protocol"@.len() == 8);
}

/// Verbosities are ordered as declared: from the most verbose to the
/// least, `Error` above all.
pub proof fn law_verbosity_order()
    ensures
        Verbosity::Debug.rank() < Verbosity::Trace.rank(),
        Verbosity::Trace.rank() < Verbosity::Info.rank(),
        Verbosity::Info.rank() < Verbosity::Warning.rank(),
        Verbosity::Warning.rank() < Verbosity::Error.rank(),
{
}

/// Every category has a place of its own in a filter.
pub proof fn law_category_index(c: Category, d: Category)
    ensures
        c.index() < CATEGORY_COUNT,
        c.index() == d.index() ==> c == d,
{
}

/// A filter covers every category.
proof fn lemma_filter_len(dflt: Verbosity, cat_verb: Seq<(Category, Verbosity)>)
    ensures
        filter_of(dflt, cat_verb).len() == CATEGORY_COUNT,
    decreases cat_verb.len(),
{
    if cat_verb.len() > 0 {
        lemma_filter_len(dflt, cat_verb.drop_last());
    }
}

/// The overrides of a setting apply in order, so the last one that names a
/// category wins: with override `j` the last for category `c`, the filter
/// built from the setting logs `c` from the verbosity of override `j` on.
pub proof fn law_last_override_wins(dflt: Verbosity, cat_verb: Seq<(Category, Verbosity)>, c: Category, j: int)
    requires
        0 <= j < cat_verb.len(),
        cat_verb[j].0 == c,
        forall|k: int| j < k < cat_verb.len() ==> #[trigger] cat_verb[k].0 != c,
    ensures
        filter_of(dflt, cat_verb).len() == CATEGORY_COUNT,
        filter_of(dflt, cat_verb)[c.index() as int] == cat_verb[j].1,
    decreases cat_verb.len(),
{
    lemma_filter_len(dflt, cat_verb);
    let d = cat_verb.drop_last();
    lemma_filter_len(dflt, d);
    if j < cat_verb.len() - 1 {
        assert(cat_verb.last() == cat_verb[cat_verb.len() - 1]);
        assert(cat_verb.last().0 != c);
        law_category_index(cat_verb.last().0, c);
        assert forall|k: int| j < k < d.len() implies #[trigger] d[k].0 != c by {
            assert(d[k] == cat_verb[k]);
        }
        law_last_override_wins(dflt, d, c, j);
    }
}

/// A category that no override names keeps the default verbosity of the
/// setting.
pub proof fn law_unnamed_category_keeps_default(dflt: Verbosity, cat_verb: Seq<(Category, Verbosity)>, c: Category)
    requires
        forall|k: int| 0 <= k < cat_verb.len() ==> #[trigger] cat_verb[k].0 != c,
    ensures
        filter_of(dflt, cat_verb).len() == CATEGORY_COUNT,
        filter_of(dflt, cat_verb)[c.index() as int] == dflt,
    decreases cat_verb.len(),
{
    lemma_filter_len(dflt, cat_verb);
    if cat_verb.len() > 0 {
        let d = cat_verb.drop_last();
        lemma_filter_len(dflt, d);
        assert(cat_verb.last() == cat_verb[cat_verb.len() - 1]);
        law_category_index(cat_verb.last().0, c);
        assert forall|k: int| 0 <= k < d.len() implies #[trigger] d[k].0 != c by {
            assert(d[k] == cat_verb[k]);
        }
        law_unnamed_category_keeps_default(dflt, d, c);
    }
}

} // verus!
