//! Which rule serves which server name.
//!
//! An exact name goes first, then a wildcard, then the fallback. A wildcard
//! stands for exactly one label.

use vstd::hash_map::StringHashMap;
use vstd::prelude::*;
use vstd::string::*;

use crate::text::{chars_of, to_ascii_lowercase};
use crate::types::RuleId;

verus! {

/// How a name was matched.
#[derive(Clone, Copy, Debug, PartialEq, Eq, Structural)]
pub enum SniMatchKind {
    Exact,
    Wildcard,
    Fallback,
}

/// What a lookup found.
#[derive(Clone, Copy, Debug, PartialEq, Eq, Structural)]
pub enum SniMatch {
    Hit { rule_id: RuleId, kind: SniMatchKind },
    Miss,
}

/// Why no table can be built.
#[derive(Debug, PartialEq, Eq)]
pub enum BuildError {
    /// Two rules have the same name.
    DuplicateExact(String),
    /// Two rules have the same wildcard; this is what follows the `*.`.
    DuplicateWildcard(String),
    /// Two rules are fallbacks.
    DuplicateFallback,
}

/// [`BuildError`] as a mathematical value.
pub enum BuildErrorView {
    DuplicateExact(Seq<char>),
    DuplicateWildcard(Seq<char>),
    DuplicateFallback,
}

impl View for BuildError {
    type V = BuildErrorView;

    open spec fn view(&self) -> BuildErrorView {
        match *self {
            BuildError::DuplicateExact(name) => BuildErrorView::DuplicateExact(name@),
            BuildError::DuplicateWildcard(suffix) => BuildErrorView::DuplicateWildcard(suffix@),
            BuildError::DuplicateFallback => BuildErrorView::DuplicateFallback,
        }
    }
}

/// A routing table as a mathematical value.
#[verifier::ext_equal]
pub struct TableView {
    /// The rule of each exact name.
    pub exact: Map<Seq<char>, RuleId>,
    /// The rule of each wildcard, by what follows the `*.`.
    pub wildcards: Map<Seq<char>, RuleId>,
    /// The rule for everything else.
    pub fallback: Option<RuleId>,
}

/// A pattern of a rule and the rule. No pattern is the fallback.
pub type Member = (Option<Seq<char>>, RuleId);

/// The pattern begins with `*.`.
pub open spec fn is_wildcard(pattern: Seq<char>) -> bool {
    pattern.len() >= 2 && pattern[0] == '*' && pattern[1] == '.'
}

impl TableView {
    pub open spec fn empty() -> TableView {
        TableView { exact: Map::empty(), wildcards: Map::empty(), fallback: None }
    }

    /// The table with one more member, or why there is none.
    pub open spec fn with_member(self, member: Member) -> Result<TableView, BuildErrorView> {
        match member.0 {
            None => if self.fallback is Some {
                Err(BuildErrorView::DuplicateFallback)
            } else {
                Ok(TableView { fallback: Some(member.1), ..self })
            },
            Some(pattern) => {
                let lower = crate::text::lowered(pattern);
                let suffix = lower.skip(2);
                if is_wildcard(lower) {
                    if self.wildcards.contains_key(suffix) {
                        Err(BuildErrorView::DuplicateWildcard(suffix))
                    } else {
                        Ok(
                            TableView {
                                wildcards: self.wildcards.insert(suffix, member.1),
                                ..self
                            },
                        )
                    }
                } else {
                    if self.exact.contains_key(lower) {
                        Err(BuildErrorView::DuplicateExact(lower))
                    } else {
                        Ok(TableView { exact: self.exact.insert(lower, member.1), ..self })
                    }
                }
            },
        }
    }

    /// The table of all members, or the first thing that stands in its way.
    pub open spec fn of_members(members: Seq<Member>) -> Result<TableView, BuildErrorView>
        decreases members.len(),
    {
        if members.len() == 0 {
            Ok(TableView::empty())
        } else {
            match TableView::of_members(members.drop_last()) {
                Ok(table) => table.with_member(members.last()),
                Err(e) => Err(e),
            }
        }
    }

    /// The rule for everything that nothing else matches.
    pub open spec fn otherwise(self) -> SniMatch {
        match self.fallback {
            Some(rule_id) => SniMatch::Hit { rule_id, kind: SniMatchKind::Fallback },
            None => SniMatch::Miss,
        }
    }

    /// What the name that the client sent leads to, if it sent one.
    pub open spec fn lookup(self, sni: Option<Seq<char>>) -> SniMatch {
        match sni {
            None => self.otherwise(),
            Some(name) => {
                let host = crate::text::lowered(name);
                let suffix = after_first_label(host);
                if self.exact.contains_key(host) {
                    SniMatch::Hit { rule_id: self.exact[host], kind: SniMatchKind::Exact }
                } else if suffix is Some && self.wildcards.contains_key(suffix->0) {
                    SniMatch::Hit {
                        rule_id: self.wildcards[suffix->0],
                        kind: SniMatchKind::Wildcard,
                    }
                } else {
                    self.otherwise()
                }
            },
        }
    }
}

/// `host` is one label, a dot and `suffix`.
pub open spec fn wildcard_covers(host: Seq<char>, suffix: Seq<char>) -> bool {
    let dot = host.len() - suffix.len() - 1;
    &&& dot > 0
    &&& host[dot] == '.'
    &&& host.skip(dot + 1) == suffix
    &&& forall|i: int| 0 <= i < dot ==> #[trigger] host[i] != '.'
}

/// What follows the first label and its dot, if there is a dot and a label
/// before it.
pub open spec fn after_first_label(host: Seq<char>) -> Option<Seq<char>> {
    if exists|suffix: Seq<char>| wildcard_covers(host, suffix) {
        Some(choose|suffix: Seq<char>| wildcard_covers(host, suffix))
    } else {
        None
    }
}

/// At most one wildcard covers a name, so that it does not matter in which
/// order the wildcards are tried.
pub proof fn law_one_wildcard_per_name(host: Seq<char>, a: Seq<char>, b: Seq<char>)
    requires
        wildcard_covers(host, a),
        wildcard_covers(host, b),
    ensures
        a == b,
        after_first_label(host) == Some(a),
{
    lemma_same_suffix(host, a, b);
    let c = choose|suffix: Seq<char>| wildcard_covers(host, suffix);
    lemma_same_suffix(host, a, c);
}

/// A wildcard covers the names that are one label, a dot and what follows the
/// `*.`, and no others.
pub proof fn law_a_wildcard_stands_for_one_label(host: Seq<char>, suffix: Seq<char>)
    ensures
        wildcard_covers(host, suffix) <==> exists|label: Seq<char>|
            {
                &&& label.len() > 0
                &&& !label.contains('.')
                &&& host == #[trigger] (label + seq!['.'] + suffix)
            },
{
    if wildcard_covers(host, suffix) {
        let dot = host.len() - suffix.len() - 1;
        let label = host.take(dot);
        assert(host =~= label + seq!['.'] + suffix) by {
            assert(host.skip(dot + 1) =~= suffix);
        }
    }
    if exists|label: Seq<char>|
        {
            &&& label.len() > 0
            &&& !label.contains('.')
            &&& host == #[trigger] (label + seq!['.'] + suffix)
        } {
        let label = choose|label: Seq<char>|
            {
                &&& label.len() > 0
                &&& !label.contains('.')
                &&& host == #[trigger] (label + seq!['.'] + suffix)
            };
        let dot = label.len() as int;
        assert(host.skip(dot + 1) =~= suffix);
        assert forall|i: int| 0 <= i < dot implies #[trigger] host[i] != '.' by {
            assert(host[i] == label[i]);
            assert(label.contains(label[i]));
        }
    }
}

proof fn lemma_same_suffix(host: Seq<char>, a: Seq<char>, b: Seq<char>)
    requires
        wildcard_covers(host, a),
        wildcard_covers(host, b),
    ensures
        a == b,
{
    let dot_a = host.len() - a.len() - 1;
    let dot_b = host.len() - b.len() - 1;
    if dot_a < dot_b {
        assert(host[dot_a] != '.');
    } else if dot_b < dot_a {
        assert(host[dot_b] != '.');
    }
}

/// Whether `host` is one label, a dot and `suffix`.
pub fn wildcard_matches(host: &str, suffix: &str) -> (matches: bool)
    ensures
        matches == wildcard_covers(host@, suffix@),
{
    let name = chars_of(host);
    let tail = chars_of(suffix);
    if name.len() < 2 || tail.len() > name.len() - 2 {
        return false;
    }
    let dot: usize = name.len() - tail.len() - 1;
    if name[dot] != '.' {
        return false;
    }
    let mut i: usize = 0;
    while i < tail.len()
        invariant
            i <= tail.len(),
            dot + 1 + tail.len() == name.len(),
            name@ == host@,
            tail@ == suffix@,
            forall|j: int| 0 <= j < i ==> #[trigger] tail@[j] == name@.skip(dot + 1)[j],
        decreases tail.len() - i,
    {
        if tail[i] != name[dot + 1 + i] {
            assert(name@.skip(dot + 1)[i as int] != tail@[i as int]);
            return false;
        }
        i = i + 1;
    }
    assert(name@.skip(dot + 1) =~= tail@);
    let mut i: usize = 0;
    while i < dot
        invariant
            i <= dot,
            dot + 1 + tail.len() == name.len(),
            name@ == host@,
            tail@ == suffix@,
            forall|j: int| 0 <= j < i ==> #[trigger] name@[j] != '.',
        decreases dot - i,
    {
        if name[i] == '.' {
            return false;
        }
        i = i + 1;
    }
    true
}

/// The wildcards by what follows the `*.`, the longer ones first.
struct WildcardEntry {
    suffix: String,
    rule_id: RuleId,
}

/// The routing table of one listener.
pub struct SniRoutingTable {
    exact: StringHashMap<RuleId>,
    wildcards: Vec<WildcardEntry>,
    fallback: Option<RuleId>,
}

spec fn has_suffix(entries: Seq<WildcardEntry>, suffix: Seq<char>) -> bool {
    exists|i: int| 0 <= i < entries.len() && (#[trigger] entries[i]).suffix@ == suffix
}

spec fn suffix_at(entries: Seq<WildcardEntry>, suffix: Seq<char>) -> int {
    choose|i: int| 0 <= i < entries.len() && (#[trigger] entries[i]).suffix@ == suffix
}

spec fn wildcard_map(entries: Seq<WildcardEntry>) -> Map<Seq<char>, RuleId> {
    Map::new(
        |suffix: Seq<char>| has_suffix(entries, suffix),
        |suffix: Seq<char>| entries[suffix_at(entries, suffix)].rule_id,
    )
}

/// No suffix occurs twice, and the longer ones come first.
spec fn wildcards_wf(entries: Seq<WildcardEntry>) -> bool {
    &&& forall|i: int, j: int|
        0 <= i < j < entries.len() ==> (#[trigger] entries[i]).suffix@ != (
        #[trigger] entries[j]).suffix@
    &&& forall|i: int, j: int|
        0 <= i < j < entries.len() ==> (#[trigger] entries[i]).suffix@.len() >= (
        #[trigger] entries[j]).suffix@.len()
}

proof fn lemma_wildcard_at(entries: Seq<WildcardEntry>, i: int)
    requires
        wildcards_wf(entries),
        0 <= i < entries.len(),
    ensures
        wildcard_map(entries).contains_key(entries[i].suffix@),
        wildcard_map(entries)[entries[i].suffix@] == entries[i].rule_id,
{
    assert(suffix_at(entries, entries[i].suffix@) == i);
}

proof fn lemma_wildcard_insert(entries: Seq<WildcardEntry>, at: int, entry: WildcardEntry)
    requires
        wildcards_wf(entries),
        !has_suffix(entries, entry.suffix@),
        0 <= at <= entries.len(),
        forall|i: int| 0 <= i < at ==> (#[trigger] entries[i]).suffix@.len() >= entry.suffix@.len(),
        forall|i: int|
            at <= i < entries.len() ==> (#[trigger] entries[i]).suffix@.len() < entry.suffix@.len(),
    ensures
        wildcards_wf(entries.insert(at, entry)),
        wildcard_map(entries.insert(at, entry)) =~= wildcard_map(entries).insert(
            entry.suffix@,
            entry.rule_id,
        ),
{
    let after = entries.insert(at, entry);
    assert forall|i: int| 0 <= i < after.len() implies (#[trigger] after[i]) == (if i < at {
        entries[i]
    } else if i == at {
        entry
    } else {
        entries[i - 1]
    }) by {}
    assert(wildcards_wf(after));
    assert forall|suffix: Seq<char>| has_suffix(after, suffix) == (has_suffix(entries, suffix)
        || suffix == entry.suffix@) by {
        if has_suffix(entries, suffix) {
            let i = suffix_at(entries, suffix);
            if i < at {
                assert(after[i].suffix@ == suffix);
            } else {
                assert(after[i + 1].suffix@ == suffix);
            }
        }
        if suffix == entry.suffix@ {
            assert(after[at].suffix@ == suffix);
        }
        if has_suffix(after, suffix) {
            let i = suffix_at(after, suffix);
            if i < at {
                assert(entries[i].suffix@ == suffix);
            } else if i > at {
                assert(entries[i - 1].suffix@ == suffix);
            }
        }
    }
    assert forall|suffix: Seq<char>| has_suffix(after, suffix) implies wildcard_map(after)[suffix]
        == wildcard_map(entries).insert(entry.suffix@, entry.rule_id)[suffix] by {
        let i = suffix_at(after, suffix);
        lemma_wildcard_at(after, i);
        if i < at {
            lemma_wildcard_at(entries, i);
        } else if i > at {
            lemma_wildcard_at(entries, i - 1);
        }
    }
}

/// The members of a slice.
pub open spec fn members_view(members: Seq<(Option<&str>, RuleId)>) -> Seq<Member> {
    members.map_values(
        |m: (Option<&str>, RuleId)|
            (
                (match m.0 {
                    Some(pattern) => Some(pattern@),
                    None => None,
                }),
                m.1,
            ),
    )
}

impl View for SniRoutingTable {
    type V = TableView;

    closed spec fn view(&self) -> TableView {
        TableView {
            exact: self.exact@,
            wildcards: wildcard_map(self.wildcards@),
            fallback: self.fallback,
        }
    }
}

impl SniRoutingTable {
    pub closed spec fn wf(&self) -> bool {
        wildcards_wf(self.wildcards@)
    }

    /// The table of all members: of every pattern and its rule.
    pub fn from_members(members: &[(Option<&str>, RuleId)]) -> (built: Result<
        SniRoutingTable,
        BuildError,
    >)
        ensures
            match built {
                Ok(table) => table.wf() && TableView::of_members(members_view(members@)) == Ok::<
                    TableView,
                    BuildErrorView,
                >(table@),
                Err(e) => TableView::of_members(members_view(members@)) == Err::<
                    TableView,
                    BuildErrorView,
                >(e@),
            },
    {
        let mut table = SniRoutingTable {
            exact: StringHashMap::new(),
            wildcards: Vec::new(),
            fallback: None,
        };
        let ghost all = members_view(members@);
        assert(table@ =~= TableView::empty());
        let mut i: usize = 0;
        while i < members.len()
            invariant
                i <= members.len(),
                all == members_view(members@),
                table.wf(),
                TableView::of_members(all.take(i as int)) == Ok::<TableView, BuildErrorView>(table@),
            decreases members.len() - i,
        {
            proof {
                assert(all.take(i + 1).drop_last() =~= all.take(i as int));
                assert(all.take(i + 1).last() == all[i as int]);
            }
            let added = table.add_member(members[i].0, members[i].1);
            if let Err(e) = added {
                proof {
                    lemma_error_stays(all, i + 1);
                }
                return Err(e);
            }
            i = i + 1;
        }
        assert(all.take(i as int) =~= all);
        Ok(table)
    }

    fn add_member(&mut self, pattern: Option<&str>, rule_id: RuleId) -> (added: Result<
        (),
        BuildError,
    >)
        requires
            old(self).wf(),
        ensures
            ({
                let member = (
                    (match pattern {
                        Some(pattern) => Some(pattern@),
                        None => None,
                    }),
                    rule_id,
                );
                match added {
                    Ok(_) => final(self).wf() && old(self)@.with_member(member) == Ok::<
                        TableView,
                        BuildErrorView,
                    >(final(self)@),
                    Err(e) => old(self)@.with_member(member) == Err::<TableView, BuildErrorView>(
                        e@,
                    ),
                }
            }),
    {
        match pattern {
            None => {
                if self.fallback.is_some() {
                    return Err(BuildError::DuplicateFallback);
                }
                self.fallback = Some(rule_id);
                assert(self@ =~= TableView { fallback: Some(rule_id), ..old(self)@ });
                Ok(())
            },
            Some(pattern) => {
                let lower = to_ascii_lowercase(pattern);
                let text = lower.as_str();
                let len: usize = text.unicode_len();
                if len >= 2 && text.get_char(0) == '*' && text.get_char(1) == '.' {
                    let suffix = text.substring_char(2, len).to_owned();
                    assert(suffix@ =~= lower@.skip(2));
                    self.add_wildcard(suffix, rule_id)
                } else {
                    if self.exact.contains_key(text) {
                        return Err(BuildError::DuplicateExact(lower));
                    }
                    self.exact.insert(lower, rule_id);
                    assert(self@ =~= TableView {
                        exact: old(self)@.exact.insert(lower@, rule_id),
                        ..old(self)@
                    });
                    Ok(())
                }
            },
        }
    }

    fn add_wildcard(&mut self, suffix: String, rule_id: RuleId) -> (added: Result<(), BuildError>)
        requires
            old(self).wf(),
        ensures
            if old(self)@.wildcards.contains_key(suffix@) {
                added matches Err(BuildError::DuplicateWildcard(s)) && s@ == suffix@
            } else {
                &&& added is Ok
                &&& final(self).wf()
                &&& final(self)@ =~= (TableView {
                    wildcards: old(self)@.wildcards.insert(suffix@, rule_id),
                    ..old(self)@
                })
            },
    {
        let len: usize = suffix.as_str().unicode_len();
        let mut at: usize = 0;
        let mut i: usize = 0;
        while i < self.wildcards.len()
            invariant
                *self == *old(self),
                self.wf(),
                at <= i <= self.wildcards@.len(),
                len == suffix@.len(),
                forall|j: int| 0 <= j < i ==> (#[trigger] self.wildcards@[j]).suffix@ != suffix@,
                forall|j: int|
                    0 <= j < at ==> (#[trigger] self.wildcards@[j]).suffix@.len() >= suffix@.len(),
                forall|j: int|
                    at <= j < i ==> (#[trigger] self.wildcards@[j]).suffix@.len() < suffix@.len(),
            decreases self.wildcards@.len() - i,
        {
            if self.wildcards[i].suffix == suffix {
                proof {
                    lemma_wildcard_at(self.wildcards@, i as int);
                }
                return Err(BuildError::DuplicateWildcard(suffix));
            }
            if self.wildcards[i].suffix.as_str().unicode_len() >= len {
                at = i + 1;
            }
            i = i + 1;
        }
        let entry = WildcardEntry { suffix, rule_id };
        proof {
            assert(!has_suffix(self.wildcards@, suffix@));
            lemma_wildcard_insert(self.wildcards@, at as int, entry);
        }
        self.wildcards.insert(at, entry);
        Ok(())
    }

    /// The rule for the name that the client sent, if it sent one.
    pub fn lookup(&self, sni: Option<&str>) -> (found: SniMatch)
        requires
            self.wf(),
        ensures
            found == self@.lookup(
                (match sni {
                    Some(name) => Some(name@),
                    None => None,
                }),
            ),
    {
        if let Some(name) = sni {
            let host = to_ascii_lowercase(name);
            if let Some(rule_id) = self.exact.get(host.as_str()) {
                return SniMatch::Hit { rule_id: *rule_id, kind: SniMatchKind::Exact };
            }
            let mut i: usize = 0;
            while i < self.wildcards.len()
                invariant
                    i <= self.wildcards@.len(),
                    self.wf(),
                    forall|j: int|
                        0 <= j < i ==> !wildcard_covers(
                            host@,
                            (#[trigger] self.wildcards@[j]).suffix@,
                        ),
                    sni == Some(name),
                    host@ == crate::text::lowered(name@),
                    !self@.exact.contains_key(host@),
                decreases self.wildcards@.len() - i,
            {
                if wildcard_matches(host.as_str(), self.wildcards[i].suffix.as_str()) {
                    proof {
                        let suffix = self.wildcards@[i as int].suffix@;
                        law_one_wildcard_per_name(host@, suffix, suffix);
                        lemma_wildcard_at(self.wildcards@, i as int);
                    }
                    return SniMatch::Hit {
                        rule_id: self.wildcards[i].rule_id,
                        kind: SniMatchKind::Wildcard,
                    };
                }
                i = i + 1;
            }
            proof {
                let suffix = after_first_label(host@);
                if suffix is Some && self@.wildcards.contains_key(suffix->0) {
                    let j = suffix_at(self.wildcards@, suffix->0);
                    assert(!wildcard_covers(host@, self.wildcards@[j].suffix@));
                }
            }
        }
        match self.fallback {
            Some(rule_id) => SniMatch::Hit { rule_id, kind: SniMatchKind::Fallback },
            None => SniMatch::Miss,
        }
    }
}

/// What stands in the way of the first members stands in the way of all.
proof fn lemma_error_stays(members: Seq<Member>, upto: int)
    requires
        0 <= upto <= members.len(),
        TableView::of_members(members.take(upto)) is Err,
    ensures
        TableView::of_members(members) == TableView::of_members(members.take(upto)),
    decreases members.len() - upto,
{
    if upto == members.len() {
        assert(members.take(upto) =~= members);
    } else {
        assert(members.take(upto + 1).drop_last() =~= members.take(upto));
        lemma_error_stays(members, upto + 1);
    }
}

/// Two members have the same pattern, or both have none. Capital letters do not
/// matter.
pub open spec fn agree(a: Member, b: Member) -> bool {
    match (a.0, b.0) {
        (None, None) => true,
        (Some(p), Some(q)) => crate::text::lowered(p) == crate::text::lowered(q),
        _ => false,
    }
}

/// An earlier member agrees with the one at place `j`.
pub open spec fn repeats(members: Seq<Member>, j: int) -> bool {
    exists|i: int| 0 <= i < j && agree(#[trigger] members[i], members[j])
}

/// What is reported of a member that repeats an earlier one.
pub open spec fn repeat_error(member: Member) -> BuildErrorView {
    match member.0 {
        None => BuildErrorView::DuplicateFallback,
        Some(pattern) => {
            let lower = crate::text::lowered(pattern);
            if is_wildcard(lower) {
                BuildErrorView::DuplicateWildcard(lower.skip(2))
            } else {
                BuildErrorView::DuplicateExact(lower)
            }
        },
    }
}

/// The member is the exact name `name`.
spec fn names(member: Member, name: Seq<char>) -> bool {
    &&& member.0 is Some
    &&& !is_wildcard(crate::text::lowered(member.0->0))
    &&& crate::text::lowered(member.0->0) == name
}

/// The member is the wildcard before `suffix`.
spec fn covers(member: Member, suffix: Seq<char>) -> bool {
    &&& member.0 is Some
    &&& is_wildcard(crate::text::lowered(member.0->0))
    &&& crate::text::lowered(member.0->0).skip(2) == suffix
}

/// The table holds what the members say, and nothing else.
spec fn describes(table: TableView, members: Seq<Member>) -> bool {
    &&& forall|k: Seq<char>| #[trigger]
        table.exact.contains_key(k) ==> exists|i: int|
            0 <= i < members.len() && #[trigger] names(members[i], k)
    &&& forall|k: Seq<char>, i: int|
        0 <= i < members.len() && #[trigger] names(members[i], k) ==> table.exact.contains_key(k)
            && table.exact[k] == members[i].1
    &&& forall|k: Seq<char>| #[trigger]
        table.wildcards.contains_key(k) ==> exists|i: int|
            0 <= i < members.len() && #[trigger] covers(members[i], k)
    &&& forall|k: Seq<char>, i: int|
        0 <= i < members.len() && #[trigger] covers(members[i], k)
            ==> table.wildcards.contains_key(k) && table.wildcards[k] == members[i].1
    &&& table.fallback is Some ==> exists|i: int|
        0 <= i < members.len() && (#[trigger] members[i]).0 is None
    &&& forall|i: int|
        0 <= i < members.len() && (#[trigger] members[i]).0 is None ==> table.fallback == Some(
            members[i].1,
        )
}

proof fn lemma_agree(a: Member, b: Member)
    ensures
        agree(a, b) <==> {
            ||| a.0 is None && b.0 is None
            ||| a.0 is Some && names(b, crate::text::lowered(a.0->0)) && names(
                a,
                crate::text::lowered(a.0->0),
            )
            ||| a.0 is Some && covers(b, crate::text::lowered(a.0->0).skip(2)) && covers(
                a,
                crate::text::lowered(a.0->0).skip(2),
            )
        },
{
    if a.0 is Some && b.0 is Some {
        let p = crate::text::lowered(a.0->0);
        let q = crate::text::lowered(b.0->0);
        if is_wildcard(p) && is_wildcard(q) && p.skip(2) == q.skip(2) {
            assert(p =~= q.take(2) + q.skip(2)) by {
                assert(p =~= p.take(2) + p.skip(2));
                assert(p.take(2) =~= q.take(2));
            }
            assert(q =~= q.take(2) + q.skip(2));
        }
    }
}

/// A table is built if and only if no member repeats another.
proof fn lemma_built(members: Seq<Member>)
    ensures
        match TableView::of_members(members) {
            Ok(table) => {
                &&& describes(table, members)
                &&& forall|j: int| 0 <= j < members.len() ==> !#[trigger] repeats(members, j)
            },
            Err(e) => exists|j: int|
                {
                    &&& 0 <= j < members.len()
                    &&& #[trigger] repeats(members, j)
                    &&& forall|i: int| 0 <= i < j ==> !#[trigger] repeats(members, i)
                    &&& e == repeat_error(members[j])
                },
        },
    decreases members.len(),
{
    if members.len() > 0 {
        let earlier = members.drop_last();
        let last = members.last();
        let n = earlier.len() as int;
        lemma_built(earlier);
        assert forall|j: int| 0 <= j < n implies #[trigger] repeats(members, j) == repeats(
            earlier,
            j,
        ) by {
            if repeats(members, j) {
                let i = choose|i: int| 0 <= i < j && agree(#[trigger] members[i], members[j]);
                assert(agree(earlier[i], earlier[j]));
            }
            if repeats(earlier, j) {
                let i = choose|i: int| 0 <= i < j && agree(#[trigger] earlier[i], earlier[j]);
                assert(agree(members[i], members[j]));
            }
        }
        match TableView::of_members(earlier) {
            Ok(table) => {
                assert forall|i: int| 0 <= i < n implies agree(#[trigger] members[i], last) == (
                match last.0 {
                    None => members[i].0 is None,
                    Some(p) => names(members[i], crate::text::lowered(p)) && names(
                        last,
                        crate::text::lowered(p),
                    ) || covers(members[i], crate::text::lowered(p).skip(2)) && covers(
                        last,
                        crate::text::lowered(p).skip(2),
                    ),
                }) by {
                    lemma_agree(last, members[i]);
                }
                match table.with_member(last) {
                    Ok(after) => {
                        assert(!repeats(members, n)) by {
                            if repeats(members, n) {
                                let i = choose|i: int|
                                    0 <= i < n && agree(#[trigger] members[i], members[n]);
                                assert(earlier[i] == members[i]);
                            }
                        }
                        lemma_described(table, after, members);
                    },
                    Err(e) => {
                        assert(repeats(members, n)) by {
                            match last.0 {
                                None => {
                                    let i = choose|i: int|
                                        0 <= i < n && (#[trigger] earlier[i]).0 is None;
                                    assert(agree(members[i], members[n]));
                                },
                                Some(p) => {
                                    let lower = crate::text::lowered(p);
                                    if is_wildcard(lower) {
                                        let i = choose|i: int|
                                            0 <= i < n && #[trigger] covers(
                                                earlier[i],
                                                lower.skip(2),
                                            );
                                        assert(agree(members[i], members[n]));
                                    } else {
                                        let i = choose|i: int|
                                            0 <= i < n && #[trigger] names(earlier[i], lower);
                                        assert(agree(members[i], members[n]));
                                    }
                                },
                            }
                        }
                    },
                }
            },
            Err(e) => {
                let j = choose|j: int|
                    {
                        &&& 0 <= j < n
                        &&& #[trigger] repeats(earlier, j)
                        &&& forall|i: int| 0 <= i < j ==> !#[trigger] repeats(earlier, i)
                        &&& e == repeat_error(earlier[j])
                    };
                assert(repeats(members, j));
            },
        }
    }
}

proof fn lemma_described(table: TableView, after: TableView, members: Seq<Member>)
    requires
        members.len() > 0,
        describes(table, members.drop_last()),
        table.with_member(members.last()) == Ok::<TableView, BuildErrorView>(after),
    ensures
        describes(after, members),
{
    let earlier = members.drop_last();
    let last = members.last();
    let n = earlier.len() as int;
    assert(members[n] == last);
    assert forall|k: Seq<char>| #[trigger] after.exact.contains_key(k) implies exists|i: int|
        0 <= i < members.len() && #[trigger] names(members[i], k) by {
        if table.exact.contains_key(k) {
            let i = choose|i: int| 0 <= i < n && #[trigger] names(earlier[i], k);
            assert(names(members[i], k));
        } else {
            assert(names(members[n], k));
        }
    }
    assert forall|k: Seq<char>| #[trigger] after.wildcards.contains_key(k) implies exists|i: int|
        0 <= i < members.len() && #[trigger] covers(members[i], k) by {
        if table.wildcards.contains_key(k) {
            let i = choose|i: int| 0 <= i < n && #[trigger] covers(earlier[i], k);
            assert(covers(members[i], k));
        } else {
            assert(covers(members[n], k));
        }
    }
    assert forall|k: Seq<char>, i: int|
        0 <= i < members.len() && #[trigger] names(
            members[i],
            k,
        ) implies after.exact.contains_key(k) && after.exact[k] == members[i].1 by {
        if i < n {
            assert(names(earlier[i], k));
        }
    }
    assert forall|k: Seq<char>, i: int|
        0 <= i < members.len() && #[trigger] covers(
            members[i],
            k,
        ) implies after.wildcards.contains_key(k) && after.wildcards[k] == members[i].1 by {
        if i < n {
            assert(covers(earlier[i], k));
        }
    }
    if after.fallback is Some {
        if table.fallback is Some {
            let i = choose|i: int| 0 <= i < n && (#[trigger] earlier[i]).0 is None;
            assert(members[i].0 is None);
        } else {
            assert(members[n].0 is None);
        }
    }
    assert forall|i: int|
        0 <= i < members.len() && (#[trigger] members[i]).0 is None implies after.fallback == Some(
        members[i].1,
    ) by {
        if i < n {
            assert(earlier[i].0 is None);
        }
    }
}

/// No table is built if and only if two members agree. What is reported is the
/// first member that repeats an earlier one.
pub proof fn law_only_repeats_are_refused(members: Seq<Member>)
    ensures
        TableView::of_members(members) is Err <==> exists|j: int|
            0 <= j < members.len() && #[trigger] repeats(members, j),
        TableView::of_members(members) matches Err(e) ==> exists|j: int|
            {
                &&& 0 <= j < members.len()
                &&& #[trigger] repeats(members, j)
                &&& forall|i: int| 0 <= i < j ==> !#[trigger] repeats(members, i)
                &&& e == repeat_error(members[j])
            },
{
    lemma_built(members);
}

/// It does not matter in which order the members are listed: every order of them
/// gives the same table.
pub proof fn law_order_of_members_is_irrelevant(members: Seq<Member>, reordered: Seq<Member>)
    requires
        TableView::of_members(members) is Ok,
        members.to_multiset() == reordered.to_multiset(),
    ensures
        TableView::of_members(reordered) == TableView::of_members(members),
{
    lemma_built(members);
    lemma_built(reordered);
    members.to_multiset_ensures();
    reordered.to_multiset_ensures();
    let table = TableView::of_members(members)->Ok_0;
    assert forall|j: int| 0 <= j < reordered.len() implies !#[trigger] repeats(reordered, j) by {
        if repeats(reordered, j) {
            let i = choose|i: int| 0 <= i < j && agree(#[trigger] reordered[i], reordered[j]);
            lemma_repeats_in_any_order(members, reordered, i, j);
        }
    }
    let again = TableView::of_members(reordered)->Ok_0;
    lemma_same_table(members, reordered, table, again);
    lemma_same_table(reordered, members, again, table);
    assert(again =~= table);
}

proof fn lemma_repeats_in_any_order(
    members: Seq<Member>,
    reordered: Seq<Member>,
    i: int,
    j: int,
)
    requires
        members.to_multiset() == reordered.to_multiset(),
        0 <= i < j < reordered.len(),
        agree(reordered[i], reordered[j]),
    ensures
        exists|k: int| 0 <= k < members.len() && #[trigger] repeats(members, k),
{
    members.to_multiset_ensures();
    reordered.to_multiset_ensures();
    if forall|k: int| 0 <= k < members.len() ==> !#[trigger] repeats(members, k) {
        assert forall|a: int, b: int|
            0 <= a < b < members.len() implies !agree(#[trigger] members[a], #[trigger] members[b])
            by {
            assert(!repeats(members, b));
        }
        assert(members.no_duplicates());
        members.lemma_multiset_has_no_duplicates();
        reordered.lemma_multiset_has_no_duplicates_conv();
        assert(reordered[i] != reordered[j]);
        assert(reordered.to_multiset().count(reordered[i]) > 0);
        assert(reordered.to_multiset().count(reordered[j]) > 0);
        assert(members.contains(reordered[i]) && members.contains(reordered[j]));
        let a = members.index_of(reordered[i]);
        let b = members.index_of(reordered[j]);
        assert(agree(members[a], members[b]) && agree(members[b], members[a]));
        assert(false);
    }
}

/// What the one table holds, the other holds too.
proof fn lemma_same_table(
    members: Seq<Member>,
    reordered: Seq<Member>,
    table: TableView,
    again: TableView,
)
    requires
        members.to_multiset() == reordered.to_multiset(),
        describes(table, members),
        describes(again, reordered),
    ensures
        forall|k: Seq<char>| #[trigger]
            table.exact.contains_key(k) ==> again.exact.contains_key(k) && again.exact[k]
                == table.exact[k],
        forall|k: Seq<char>| #[trigger]
            table.wildcards.contains_key(k) ==> again.wildcards.contains_key(k)
                && again.wildcards[k] == table.wildcards[k],
        table.fallback is Some ==> again.fallback == table.fallback,
{
    members.to_multiset_ensures();
    reordered.to_multiset_ensures();
    assert forall|i: int| 0 <= i < members.len() implies reordered.contains(
        #[trigger] members[i],
    ) by {
        assert(members.contains(members[i]));
        assert(members.to_multiset().count(members[i]) > 0);
    }
    assert forall|k: Seq<char>| #[trigger] table.exact.contains_key(k) implies
        again.exact.contains_key(k) && again.exact[k] == table.exact[k] by {
        let i = choose|i: int| 0 <= i < members.len() && #[trigger] names(members[i], k);
        let j = reordered.index_of(members[i]);
        assert(names(reordered[j], k));
    }
    assert forall|k: Seq<char>| #[trigger] table.wildcards.contains_key(k) implies
        again.wildcards.contains_key(k) && again.wildcards[k] == table.wildcards[k] by {
        let i = choose|i: int| 0 <= i < members.len() && #[trigger] covers(members[i], k);
        let j = reordered.index_of(members[i]);
        assert(covers(reordered[j], k));
    }
    if table.fallback is Some {
        let i = choose|i: int| 0 <= i < members.len() && (#[trigger] members[i]).0 is None;
        let j = reordered.index_of(members[i]);
        assert(reordered[j].0 is None);
    }
}

/// An exact name beats a wildcard that covers it, and both beat the fallback. A
/// client that sends no name can only get the fallback.
pub proof fn law_precedence(table: TableView, name: Seq<char>, suffix: Seq<char>)
    ensures
        ({
            let host = crate::text::lowered(name);
            let exact = table.exact.contains_key(host);
            let covered = wildcard_covers(host, suffix) && table.wildcards.contains_key(suffix);
            &&& exact ==> table.lookup(Some(name)) == (SniMatch::Hit {
                rule_id: table.exact[host],
                kind: SniMatchKind::Exact,
            })
            &&& !exact && covered ==> table.lookup(Some(name)) == (SniMatch::Hit {
                rule_id: table.wildcards[suffix],
                kind: SniMatchKind::Wildcard,
            })
            &&& table.lookup(None) == table.otherwise()
        }),
{
    let host = crate::text::lowered(name);
    if wildcard_covers(host, suffix) {
        law_one_wildcard_per_name(host, suffix, suffix);
    }
}

/// The members of a table, one by one.
proof fn lemma_members(members: &[(Option<&str>, RuleId)])
    ensures
        members_view(members@).len() == members@.len(),
        forall|i: int|
            0 <= i < members@.len() ==> #[trigger] members_view(members@)[i].1 == members@[i].1,
        forall|i: int|
            #![trigger members_view(members@)[i]]
            #![trigger members@[i]]
            0 <= i < members@.len() ==> {
                &&& members_view(members@)[i].0 is Some <==> members@[i].0 is Some
                &&& members@[i].0 is Some ==> members_view(members@)[i].0 == Some(members@[i].0->0@)
            },
{
}

/// A name goes to the member whose pattern is the name itself, whatever the case of
/// the letters.
pub proof fn law_a_name_goes_to_the_member_that_names_it(
    members: &[(Option<&str>, RuleId)],
    table: SniRoutingTable,
    name: &str,
    found: SniMatch,
    i: int,
)
    requires
        call_ensures(SniRoutingTable::from_members, (members,), Ok(table)),
        call_ensures(SniRoutingTable::lookup, (&table, Some(name)), found),
        0 <= i < members@.len(),
        members@[i].0 is Some,
        crate::text::lowered(members@[i].0->0@) == crate::text::lowered(name@),
        !(name@.len() >= 2 && name@[0] == '*' && name@[1] == '.'),
    ensures
        found == (SniMatch::Hit { rule_id: members@[i].1, kind: SniMatchKind::Exact }),
{
    let v = members_view(members@);
    let host = crate::text::lowered(name@);
    lemma_built(v);
    lemma_members(members);
    assert(v[i].1 == members@[i].1);
    assert(!is_wildcard(host)) by {
        if is_wildcard(host) {
            crate::text::law_lowering_changes_capital_letters_only(name@, 0);
            crate::text::law_lowering_changes_capital_letters_only(name@, 1);
        }
    }
    assert(names(v[i], host));
}

/// A name that no pattern spells out goes to the member whose wildcard has one
/// label, which is not empty and has no dot, in place of its star.
pub proof fn law_a_wildcard_takes_names_with_one_label_more(
    members: &[(Option<&str>, RuleId)],
    table: SniRoutingTable,
    name: &str,
    found: SniMatch,
    i: int,
    label: Seq<char>,
    suffix: Seq<char>,
)
    requires
        call_ensures(SniRoutingTable::from_members, (members,), Ok(table)),
        call_ensures(SniRoutingTable::lookup, (&table, Some(name)), found),
        0 <= i < members@.len(),
        members@[i].0 is Some,
        crate::text::lowered(members@[i].0->0@) == seq!['*', '.'] + suffix,
        label.len() > 0,
        !label.contains('.'),
        crate::text::lowered(name@) == label + seq!['.'] + suffix,
        forall|j: int|
            0 <= j < members@.len() && (#[trigger] members@[j]).0 is Some ==> crate::text::lowered(
                members@[j].0->0@,
            ) != crate::text::lowered(name@),
    ensures
        found == (SniMatch::Hit { rule_id: members@[i].1, kind: SniMatchKind::Wildcard }),
{
    let v = members_view(members@);
    let host = crate::text::lowered(name@);
    lemma_built(v);
    lemma_members(members);
    assert(v[i].1 == members@[i].1);
    let lower = crate::text::lowered(members@[i].0->0@);
    assert(lower[0] == '*' && lower[1] == '.');
    assert(lower.skip(2) =~= suffix);
    assert(covers(v[i], suffix));
    law_a_wildcard_stands_for_one_label(host, suffix);
    law_one_wildcard_per_name(host, suffix, suffix);
    if table@.exact.contains_key(host) {
        let j = choose|j: int| 0 <= j < v.len() && #[trigger] names(v[j], host);
        assert(members@[j].0 is Some);
    }
}

/// What a hit says is so: an exact hit names a member whose pattern is the name, a
/// wildcard hit one whose wildcard has one label in place of its star, and a
/// fallback the member without a pattern. A name that no pattern and no wildcard
/// takes, and a client without a name, go to the fallback, if there is one; nothing
/// else misses.
pub proof fn law_a_hit_says_why(
    members: &[(Option<&str>, RuleId)],
    table: SniRoutingTable,
    sni: Option<&str>,
    found: SniMatch,
)
    requires
        call_ensures(SniRoutingTable::from_members, (members,), Ok(table)),
        call_ensures(SniRoutingTable::lookup, (&table, sni), found),
    ensures
        sni is None ==> !(found matches SniMatch::Hit { kind: SniMatchKind::Exact, .. })
            && !(found matches SniMatch::Hit { kind: SniMatchKind::Wildcard, .. }),
        found matches SniMatch::Hit { rule_id, kind: SniMatchKind::Exact } ==> exists|i: int|
            {
                &&& 0 <= i < members@.len()
                &&& (#[trigger] members@[i]).1 == rule_id
                &&& members@[i].0 is Some
                &&& crate::text::lowered(members@[i].0->0@) == crate::text::lowered(sni->0@)
            },
        found matches SniMatch::Hit { rule_id, kind: SniMatchKind::Wildcard } ==> exists|
            i: int,
            label: Seq<char>,
            suffix: Seq<char>,
        |
            {
                &&& 0 <= i < members@.len()
                &&& (#[trigger] members@[i]).1 == rule_id
                &&& members@[i].0 is Some
                &&& label.len() > 0
                &&& !label.contains('.')
                &&& crate::text::lowered(sni->0@) == #[trigger] (label + seq!['.'] + suffix)
                &&& crate::text::lowered(members@[i].0->0@) == seq!['*', '.'] + suffix
            },
        found matches SniMatch::Hit { rule_id, kind: SniMatchKind::Fallback } ==> exists|i: int|
            {
                &&& 0 <= i < members@.len()
                &&& (#[trigger] members@[i]).1 == rule_id
                &&& members@[i].0 is None
            },
        found is Miss ==> forall|i: int|
            0 <= i < members@.len() ==> (#[trigger] members@[i]).0 is Some,
{
    let v = members_view(members@);
    let t = table@;
    lemma_built(v);
    lemma_members(members);
    if sni is Some {
        let host = crate::text::lowered(sni->0@);
        let suffix = after_first_label(host);
        if t.exact.contains_key(host) {
            let i = choose|i: int| 0 <= i < v.len() && #[trigger] names(v[i], host);
            assert(v[i].1 == members@[i].1);
            assert(members@[i].0 is Some);
        } else if suffix is Some && t.wildcards.contains_key(suffix->0) {
            let s = suffix->0;
            let i = choose|i: int| 0 <= i < v.len() && #[trigger] covers(v[i], s);
            assert(v[i].1 == members@[i].1);
            assert(wildcard_covers(host, s));
            law_a_wildcard_stands_for_one_label(host, s);
            let label = choose|label: Seq<char>|
                {
                    &&& label.len() > 0
                    &&& !label.contains('.')
                    &&& host == #[trigger] (label + seq!['.'] + s)
                };
            let lower = crate::text::lowered(members@[i].0->0@);
            assert(lower =~= seq!['*', '.'] + s);
            assert(host == label + seq!['.'] + s);
        }
    }
    if t.fallback is Some {
        let i = choose|i: int| 0 <= i < v.len() && (#[trigger] v[i]).0 is None;
        assert(v[i].1 == members@[i].1);
        assert(members@[i].0 is None);
    }
    assert forall|i: int| 0 <= i < members@.len() && (#[trigger] members@[i]).0 is None implies
        t.fallback == Some(members@[i].1) by {
        assert(v[i].1 == members@[i].1);
    }
}

/// A table is refused exactly if two of its members have the same pattern, whatever
/// the case of the letters, or both have none; the error names the pattern.
pub proof fn law_a_table_has_no_pattern_twice(
    members: &[(Option<&str>, RuleId)],
    built: Result<SniRoutingTable, BuildError>,
)
    requires
        call_ensures(SniRoutingTable::from_members, (members,), built),
    ensures
        ({
            let m = members@;
            let same = |i: int, j: int|
                {
                    &&& 0 <= i < j < m.len()
                    &&& m[i].0 is Some <==> m[j].0 is Some
                    &&& m[i].0 is Some ==> crate::text::lowered(m[i].0->0@) == crate::text::lowered(
                        m[j].0->0@,
                    )
                };
            &&& built is Err <==> exists|i: int, j: int| #[trigger] same(i, j)
            &&& built matches Err(BuildError::DuplicateFallback) ==> exists|i: int, j: int|
                #[trigger] same(i, j) && m[j].0 is None
            &&& built matches Err(BuildError::DuplicateExact(name)) ==> exists|i: int, j: int|
                #[trigger] same(i, j) && m[j].0 is Some && crate::text::lowered(m[j].0->0@) == name@
            &&& built matches Err(BuildError::DuplicateWildcard(suffix)) ==> exists|i: int, j: int|
                #[trigger] same(i, j) && m[j].0 is Some && crate::text::lowered(m[j].0->0@)
                    == seq!['*', '.'] + suffix@
        }),
{
    let m = members@;
    let v = members_view(m);
    let same = |i: int, j: int|
        {
            &&& 0 <= i < j < m.len()
            &&& m[i].0 is Some <==> m[j].0 is Some
            &&& m[i].0 is Some ==> crate::text::lowered(m[i].0->0@) == crate::text::lowered(
                m[j].0->0@,
            )
        };
    lemma_built(v);
    lemma_members(members);
    assert forall|i: int, j: int| 0 <= i < j < m.len() implies #[trigger] agree(v[i], v[j])
        == #[trigger] same(i, j) by {
        assert(v[i].1 == m[i].1 && v[j].1 == m[j].1);
    }
    match built {
        Ok(table) => {
            assert forall|i: int, j: int| !#[trigger] same(i, j) by {
                if same(i, j) {
                    assert(agree(v[i], v[j]));
                    assert(repeats(v, j));
                }
            }
        },
        Err(e) => {
            let j = choose|j: int|
                {
                    &&& 0 <= j < v.len()
                    &&& #[trigger] repeats(v, j)
                    &&& e@ == repeat_error(v[j])
                };
            let i = choose|i: int| 0 <= i < j && agree(#[trigger] v[i], v[j]);
            assert(v[i].1 == m[i].1 && v[j].1 == m[j].1);
            assert(same(i, j));
            if m[j].0 is Some {
                let lower = crate::text::lowered(m[j].0->0@);
                if is_wildcard(lower) {
                    assert(lower =~= seq!['*', '.'] + lower.skip(2));
                }
            }
        },
    }
}

/// `host` is matched exactly if it is one label, which is not empty and has no dot,
/// then a dot, then `suffix`.
pub proof fn law_a_wildcard_matches_one_label(host: &str, suffix: &str, matched: bool)
    requires
        call_ensures(wildcard_matches, (host, suffix), matched),
    ensures
        matched <==> exists|label: Seq<char>|
            {
                &&& label.len() > 0
                &&& !label.contains('.')
                &&& host@ == #[trigger] (label + seq!['.'] + suffix@)
            },
{
    law_a_wildcard_stands_for_one_label(host@, suffix@);
}

} // verus!
