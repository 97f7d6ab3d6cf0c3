//! The pure decision rules of the logging pipeline: category-based event
//! filtering with last-matching-rule-wins selection, field collection, and
//! the re-entrancy flag of the telemetry layer. The surrounding subscriber
//! plumbing extracts an event's level and category and asks these rules what
//! to do.

use vstd::prelude::*;

verus! {

/// An event's severity, from most verbose to most severe.
#[derive(Debug, Clone, Copy, PartialEq, Eq, Structural)]
pub enum LogLevel {
    Trace,
    Debug,
    Info,
    Warn,
    Error,
}

/// How verbose a level is: higher is more verbose, `Error` is least.
pub open spec fn spec_verbosity(level: LogLevel) -> int {
    match level {
        LogLevel::Trace => 4,
        LogLevel::Debug => 3,
        LogLevel::Info => 2,
        LogLevel::Warn => 1,
        LogLevel::Error => 0,
    }
}

/// The threshold a matching rule applies: off, or pass everything at most
/// this verbose.
#[derive(Debug, Clone, Copy, PartialEq, Eq, Structural)]
pub enum AdvancedLogLevelFilter {
    Off,
    Debug,
    Info,
    Warn,
    Error,
}

/// One filtering rule: events whose category starts with the pattern (or
/// every event, for a global rule with no pattern) pass when at most as
/// verbose as the rule's level.
#[derive(Debug)]
pub struct AdvancedLogMatcher {
    /// The category prefix this rule is specific to; a global rule has none.
    pub category: Option<String>,
    pub level: AdvancedLogLevelFilter,
}

/// Whether a specific rule's pattern matches a category.
pub open spec fn spec_matches_category(m: AdvancedLogMatcher, category: Seq<char>) -> bool {
    match m.category {
        Some(pattern) => category.len() >= pattern@.len() && category.subrange(
            0,
            pattern@.len() as int,
        ) == pattern@,
        None => false,
    }
}

/// The level of the last rule in the list whose category pattern matches,
/// if any rule's does.
pub open spec fn spec_last_specific(
    ms: Seq<AdvancedLogMatcher>,
    category: Seq<char>,
) -> Option<AdvancedLogLevelFilter>
    decreases ms,
{
    if ms.len() == 0 {
        None
    } else if spec_matches_category(ms.last(), category) {
        Some(ms.last().level)
    } else {
        spec_last_specific(ms.drop_last(), category)
    }
}

/// The level of the last global rule (one with no category pattern), if any.
pub open spec fn spec_last_global(ms: Seq<AdvancedLogMatcher>) -> Option<AdvancedLogLevelFilter>
    decreases ms,
{
    if ms.len() == 0 {
        None
    } else if ms.last().category is None {
        Some(ms.last().level)
    } else {
        spec_last_global(ms.drop_last())
    }
}

/// The rule an event falls under: the last matching specific rule wins;
/// only when no specific rule matches does the last global rule apply.
pub open spec fn spec_selected_rule(
    ms: Seq<AdvancedLogMatcher>,
    category: Seq<char>,
) -> Option<AdvancedLogLevelFilter> {
    match spec_last_specific(ms, category) {
        Some(level) => Some(level),
        None => spec_last_global(ms),
    }
}

/// Whether a rule passes an event of the given level: `Off` passes nothing,
/// any other threshold passes events at most as verbose as itself.
pub open spec fn spec_rule_passes(rule: AdvancedLogLevelFilter, level: LogLevel) -> bool {
    match rule {
        AdvancedLogLevelFilter::Off => false,
        AdvancedLogLevelFilter::Debug => spec_verbosity(level) <= 3,
        AdvancedLogLevelFilter::Info => spec_verbosity(level) <= 2,
        AdvancedLogLevelFilter::Warn => spec_verbosity(level) <= 1,
        AdvancedLogLevelFilter::Error => spec_verbosity(level) <= 0,
    }
}

/// Whether an event passes the filter: its selected rule passes it, and an
/// event no rule covers is filtered out.
pub open spec fn spec_should_filter(
    ms: Seq<AdvancedLogMatcher>,
    level: LogLevel,
    category: Seq<char>,
) -> bool {
    match spec_selected_rule(ms, category) {
        Some(rule) => spec_rule_passes(rule, level),
        None => false,
    }
}

/// A filtering layer: an inner consumer and the ordered rule list that
/// decides which events reach it.
pub struct DynamicTargetFilterLayer<L> {
    pub inner: L,
    pub matchers: Vec<AdvancedLogMatcher>,
}

impl<L> DynamicTargetFilterLayer<L> {
    /// Wraps a consumer with a rule list.
    pub fn new(inner: L, matchers: Vec<AdvancedLogMatcher>) -> (r: Self)
        ensures
            r.inner == inner,
            r.matchers == matchers,
    {
        Self { inner, matchers }
    }

    /// Decides whether an event of this level and category passes: the last
    /// matching specific rule decides; failing that, the last global rule;
    /// failing that, the event is filtered out.
    pub fn should_filter(&self, event_level: LogLevel, category: &str) -> (r: bool)
        ensures
            r == spec_should_filter(self.matchers@, event_level, category@),
    {
        let ms = &self.matchers;
        let n = ms.len();
        let mut selected: Option<AdvancedLogLevelFilter> = None;
        let mut i: usize = 0;
        while i < n
            invariant
                n == ms@.len(),
                i <= n,
                selected == spec_last_specific(ms@.take(i as int), category@),
            decreases n - i,
        {
            proof {
                assert(ms@.take(i + 1).drop_last() =~= ms@.take(i as int));
                assert(ms@.take(i + 1).last() == ms@[i as int]);
            }
            match &ms[i].category {
                Some(pattern) => {
                    if crate::trusted::str_starts_with(category, pattern.as_str()) {
                        selected = Some(ms[i].level);
                    }
                },
                None => {},
            }
            i += 1;
        }
        proof {
            assert(ms@.take(n as int) =~= ms@);
        }
        if selected.is_none() {
            let mut j: usize = 0;
            while j < n
                invariant
                    n == ms@.len(),
                    j <= n,
                    selected == spec_last_global(ms@.take(j as int)),
                decreases n - j,
            {
                proof {
                    assert(ms@.take(j + 1).drop_last() =~= ms@.take(j as int));
                    assert(ms@.take(j + 1).last() == ms@[j as int]);
                }
                if ms[j].category.is_none() {
                    selected = Some(ms[j].level);
                }
                j += 1;
            }
            proof {
                assert(ms@.take(n as int) =~= ms@);
            }
        }
        match selected {
            Some(rule) => match rule {
                AdvancedLogLevelFilter::Off => false,
                AdvancedLogLevelFilter::Debug => level_at_most(event_level, LogLevel::Debug),
                AdvancedLogLevelFilter::Info => level_at_most(event_level, LogLevel::Info),
                AdvancedLogLevelFilter::Warn => level_at_most(event_level, LogLevel::Warn),
                AdvancedLogLevelFilter::Error => level_at_most(event_level, LogLevel::Error),
            },
            None => false,
        }
    }
}

/// Whether an event's level is at most as verbose as a threshold level.
fn level_at_most(level: LogLevel, bound: LogLevel) -> (r: bool)
    ensures
        r == (spec_verbosity(level) <= spec_verbosity(bound)),
{
    let v: u8 = match level {
        LogLevel::Trace => 4,
        LogLevel::Debug => 3,
        LogLevel::Info => 2,
        LogLevel::Warn => 1,
        LogLevel::Error => 0,
    };
    let b: u8 = match bound {
        LogLevel::Trace => 4,
        LogLevel::Debug => 3,
        LogLevel::Info => 2,
        LogLevel::Warn => 1,
        LogLevel::Error => 0,
    };
    v <= b
}

/// What one recorded event field means to the collector: the designated
/// user-fields name carries a JSON document, the designated message name
/// carries the log body, and everything else is an ordinary attribute.
pub open spec fn spec_field_kind(name: Seq<char>) -> FieldKind {
    if name == "ten_user_fields"@ {
        FieldKind::UserFields
    } else if name == "message"@ {
        FieldKind::Message
    } else {
        FieldKind::Attribute
    }
}

/// The three roles a recorded field can play.
#[derive(Debug, Clone, Copy, PartialEq, Eq, Structural)]
pub enum FieldKind {
    UserFields,
    Message,
    Attribute,
}

/// Collects the fields of one tracing event: ordinary attributes in order,
/// the user-fields JSON document, and the message body.
#[derive(Debug)]
pub struct FieldCollector {
    pub fields: Vec<(String, String)>,
    pub user_fields_json: Option<String>,
    pub message: String,
}

impl FieldCollector {
    /// An empty collector.
    pub fn new() -> (r: FieldCollector)
        ensures
            r.fields@.len() == 0,
            r.user_fields_json is None,
            r.message@ == Seq::<char>::empty(),
    {
        FieldCollector { fields: Vec::new(), user_fields_json: None, message: String::new() }
    }

    /// Records one field under the collector's classification rule: the
    /// user-fields name sets the JSON document, the message name sets the
    /// body, and any other name appends an attribute.
    pub fn record_field(&mut self, name: String, value: String)
        ensures
            spec_field_kind(name@) == FieldKind::UserFields ==> {
                &&& final(self).user_fields_json == Some(value)
                &&& final(self).fields == old(self).fields
                &&& final(self).message == old(self).message
            },
            spec_field_kind(name@) == FieldKind::Message ==> {
                &&& final(self).message == value
                &&& final(self).fields == old(self).fields
                &&& final(self).user_fields_json == old(self).user_fields_json
            },
            spec_field_kind(name@) == FieldKind::Attribute ==> {
                &&& final(self).fields@ == old(self).fields@.push((name, value))
                &&& final(self).user_fields_json == old(self).user_fields_json
                &&& final(self).message == old(self).message
            },
    {
        proof {
            reveal_strlit("ten_user_fields");
            reveal_strlit("message");
        }
        if crate::trusted::str_eq(name.as_str(), "ten_user_fields") {
            self.user_fields_json = Some(value);
        } else if crate::trusted::str_eq(name.as_str(), "message") {
            self.message = value;
        } else {
            self.fields.push((name, value));
        }
    }
}

/// The re-entrancy flag of the telemetry layer: the layer processes an event
/// only when the flag is clear, and holds it set while processing, so events
/// the exporter's own libraries emit cannot recurse into the layer.
#[derive(Debug)]
pub struct OtlpRecursionGuard {
    pub in_layer: bool,
}

impl OtlpRecursionGuard {
    /// A clear flag: nothing is being processed.
    pub fn new() -> (r: OtlpRecursionGuard)
        ensures
            !r.in_layer,
    {
        OtlpRecursionGuard { in_layer: false }
    }

    /// Attempts to enter the layer: succeeds exactly when the flag was
    /// clear, and leaves it set either way.
    pub fn try_enter(&mut self) -> (r: bool)
        ensures
            r == !old(self).in_layer,
            final(self).in_layer,
    {
        let already_in_layer = self.in_layer;
        if !already_in_layer {
            self.in_layer = true;
        }
        !already_in_layer
    }

    /// Leaves the layer: the flag is clear afterwards.
    pub fn exit(&mut self)
        ensures
            !final(self).in_layer,
    {
        self.in_layer = false;
    }
}

} // verus!
