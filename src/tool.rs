use vstd::prelude::*;

use std::collections::HashMap;

use crate::error::AgentError;
use crate::value::{Value, ValueView};
use crate::wire::{fields_view, opt_field};

verus! {

/// Declares regex::Regex, a compiled expression, which is carried through
/// unopened.
#[verifier::external_type_specification]
#[verifier::external_body]
pub struct ExRegex(regex::Regex);

/// Declares regex::Error, the reason a pattern was refused, which is only
/// told apart from success.
#[verifier::external_type_specification]
#[verifier::external_body]
pub struct ExRegexError(regex::Error);

/// Whether the regex crate accepts `pattern`, under its default limits.
pub uninterp spec fn regex_compiles(pattern: Seq<char>) -> bool;

/// Whether the regular expression `pattern` matches somewhere in `text`.
pub uninterp spec fn regex_matches(pattern: Seq<char>, text: Seq<char>) -> bool;

/// Relies on regex::Regex::new: it succeeds exactly on the patterns that the
/// crate accepts, which depends on the pattern alone.
#[verifier::external_body]
fn compile_regex(pattern: &str) -> (r: Result<regex::Regex, regex::Error>)
    ensures
        r is Ok == regex_compiles(pattern@),
{
    regex::Regex::new(pattern)
}

/// A regular expression over tool names, with the text it was compiled from.
pub struct NamePattern {
    source: String,
    regex: regex::Regex,
}

/// Relies on regex::Regex::is_match: whether the expression matches somewhere
/// in `text`. The `regex` field of a [`NamePattern`] is only ever set by
/// [`NamePattern::new`], from the `source` field.
#[verifier::external_body]
fn regex_is_match(pattern: &NamePattern, text: &str) -> (r: bool)
    ensures
        r == regex_matches(pattern.source@, text@),
{
    pattern.regex.is_match(text)
}

impl View for NamePattern {
    type V = Seq<char>;

    /// The text the pattern was compiled from.
    closed spec fn view(&self) -> Seq<char> {
        self.source@
    }
}

impl NamePattern {
    /// Compiles `pattern`; a pattern that the regex crate refuses is a
    /// configuration error.
    pub fn new(pattern: &str) -> (r: Result<NamePattern, AgentError>)
        ensures
            r is Ok == regex_compiles(pattern@),
            r is Ok ==> r->Ok_0@ == pattern@,
            r is Err ==> r->Err_0 is InvalidConfig,
    {
        match compile_regex(pattern) {
            Ok(regex) => Ok(NamePattern { source: pattern.to_owned(), regex }),
            Err(_) => Err(AgentError::InvalidConfig("Invalid regex pattern for tools".to_owned())),
        }
    }

    /// The text the pattern was compiled from.
    pub fn as_str(&self) -> (r: &str)
        ensures
            r@ == self@,
    {
        self.source.as_str()
    }

    /// Whether the pattern matches somewhere in `text`.
    pub fn is_match(&self, text: &str) -> (r: bool)
        ensures
            r == regex_matches(self@, text@),
    {
        regex_is_match(self, text)
    }
}

/// The model of a [`ToolInfo`].
pub struct ToolInfoView {
    pub name: Seq<char>,
    pub description: Seq<char>,
    pub parameters: Option<ValueView>,
}

/// What a tool is called and how it is used, as shown to a provider.
#[derive(Debug)]
pub struct ToolInfo {
    pub name: String,
    pub description: String,
    /// A JSON-schema-like description of the arguments.
    pub parameters: Option<Value>,
}

impl View for ToolInfo {
    type V = ToolInfoView;

    open spec fn view(&self) -> ToolInfoView {
        ToolInfoView {
            name: self.name@,
            description: self.description@,
            parameters: match self.parameters {
                Some(p) => Some(p@),
                None => None,
            },
        }
    }
}

impl Clone for ToolInfo {
    fn clone(&self) -> (r: Self)
        ensures
            r@ == self@,
    {
        ToolInfo {
            name: self.name.clone(),
            description: self.description.clone(),
            parameters: match &self.parameters {
                Some(p) => Some(p.clone()),
                None => None,
            },
        }
    }
}

/// The wire shape of a tool's description: `{name, description, parameters?}`.
pub open spec fn info_value(info: ToolInfoView) -> ValueView {
    ValueView::Object(
        seq![("name"@, ValueView::String(info.name)), ("description"@, ValueView::String(info.description))]
            + opt_field("parameters"@, info.parameters),
    )
}

impl ToolInfo {
    /// The wire shape of this description.
    pub fn to_value(&self) -> (r: Value)
        ensures
            r@ == info_value(self@),
    {
        let mut fields: Vec<(String, Value)> = Vec::new();
        fields.push(("name".to_owned(), Value::String(self.name.clone())));
        fields.push(("description".to_owned(), Value::String(self.description.clone())));
        match &self.parameters {
            Some(p) => fields.push(("parameters".to_owned(), p.clone())),
            None => {},
        }
        let r = Value::Object(fields);
        assert(r@->Object_0 =~= fields_view(fields@));
        assert(fields_view(fields@) =~= info_value(self@)->Object_0);
        r
    }
}

/// A registered tool: its description, and the capability that runs it.
pub struct ToolEntry<T> {
    pub info: ToolInfo,
    pub tool: T,
}

/// Where the first entry named `name` stands in `s`.
pub open spec fn index_of<T>(s: Seq<ToolEntry<T>>, name: Seq<char>) -> Option<int>
    decreases s.len(),
{
    if s.len() == 0 {
        None
    } else if s[0].info.name@ == name {
        Some(0)
    } else {
        match index_of(s.drop_first(), name) {
            Some(i) => Some(i + 1),
            None => None,
        }
    }
}

/// The tools of `s` by name.
pub open spec fn tool_map<T>(s: Seq<ToolEntry<T>>) -> Map<Seq<char>, ToolEntry<T>> {
    Map::new(|k: Seq<char>| index_of(s, k) is Some, |k: Seq<char>| s[index_of(s, k)->Some_0])
}

/// `s` after `e` is registered: it replaces the entry of the same name where
/// there is one, and is added last otherwise.
pub open spec fn registered<T>(s: Seq<ToolEntry<T>>, e: ToolEntry<T>) -> Seq<ToolEntry<T>> {
    match index_of(s, e.info.name@) {
        Some(i) => s.update(i, e),
        None => s.push(e),
    }
}

/// `s` without the entry named `name`.
pub open spec fn unregistered<T>(s: Seq<ToolEntry<T>>, name: Seq<char>) -> Seq<ToolEntry<T>> {
    match index_of(s, name) {
        Some(i) => s.remove(i),
        None => s,
    }
}

/// No two entries of `s` share a name.
pub open spec fn unique_names<T>(s: Seq<ToolEntry<T>>) -> bool {
    forall|i: int, j: int| 0 <= i < j < s.len() ==> s[i].info.name@ != s[j].info.name@
}

pub proof fn lemma_index_of<T>(s: Seq<ToolEntry<T>>, name: Seq<char>)
    ensures
        match index_of(s, name) {
            Some(i) => 0 <= i < s.len() && s[i].info.name@ == name && forall|j: int|
                0 <= j < i ==> s[j].info.name@ != name,
            None => forall|j: int| 0 <= j < s.len() ==> s[j].info.name@ != name,
        },
    decreases s.len(),
{
    if s.len() > 0 && s[0].info.name@ != name {
        lemma_index_of(s.drop_first(), name);
        assert forall|j: int| 0 < j < s.len() implies s[j] == s.drop_first()[j - 1] by {}
    }
}

pub proof fn lemma_index_of_at<T>(s: Seq<ToolEntry<T>>, name: Seq<char>, i: int)
    requires
        0 <= i < s.len(),
        s[i].info.name@ == name,
        forall|j: int| 0 <= j < i ==> s[j].info.name@ != name,
    ensures
        index_of(s, name) == Some(i),
    decreases i,
{
    if i > 0 {
        lemma_index_of_at(s.drop_first(), name, i - 1);
    }
}

pub proof fn lemma_index_of_none<T>(s: Seq<ToolEntry<T>>, name: Seq<char>)
    requires
        forall|j: int| 0 <= j < s.len() ==> s[j].info.name@ != name,
    ensures
        index_of(s, name) is None,
    decreases s.len(),
{
    if s.len() > 0 {
        lemma_index_of_none(s.drop_first(), name);
    }
}

/// Registering puts the tool under its name, replacing any tool of that name;
/// names stay unique.
pub proof fn lemma_registered<T>(s: Seq<ToolEntry<T>>, e: ToolEntry<T>)
    requires
        unique_names(s),
    ensures
        unique_names(registered(s, e)),
        tool_map(registered(s, e)) == tool_map(s).insert(e.info.name@, e),
{
    let name = e.info.name@;
    let t = registered(s, e);
    lemma_index_of(s, name);
    assert forall|k: Seq<char>| #[trigger] index_of(t, k) == (if k == name {
        Some(match index_of(s, name) { Some(i) => i, None => s.len() as int })
    } else {
        index_of(s, k)
    }) by {
        lemma_index_of(s, k);
        if k == name {
            match index_of(s, name) {
                Some(i) => lemma_index_of_at(t, k, i),
                None => lemma_index_of_at(t, k, s.len() as int),
            }
        } else {
            match index_of(s, k) {
                Some(i) => lemma_index_of_at(t, k, i),
                None => lemma_index_of_none(t, k),
            }
        }
    }
    assert forall|k: Seq<char>| #[trigger] tool_map(t).contains_key(k) == tool_map(s).insert(name, e).contains_key(k)
        && (tool_map(t).contains_key(k) ==> tool_map(t)[k] == tool_map(s).insert(name, e)[k]) by {
        assert(index_of(t, k) == (if k == name {
            Some(match index_of(s, name) { Some(i) => i, None => s.len() as int })
        } else {
            index_of(s, k)
        }));
        lemma_index_of(s, k);
    }
    assert(tool_map(t) =~= tool_map(s).insert(name, e));
}

/// Unregistering removes the tool of that name, if any; names stay unique.
pub proof fn lemma_unregistered<T>(s: Seq<ToolEntry<T>>, name: Seq<char>)
    requires
        unique_names(s),
    ensures
        unique_names(unregistered(s, name)),
        tool_map(unregistered(s, name)) == tool_map(s).remove(name),
{
    let t = unregistered(s, name);
    lemma_index_of(s, name);
    match index_of(s, name) {
        Some(i) => {
            assert forall|k: Seq<char>| #[trigger] index_of(t, k) == (if k == name {
                None
            } else {
                match index_of(s, k) {
                    Some(j) => Some(if j < i { j } else { j - 1 }),
                    None => None,
                }
            }) by {
                lemma_index_of(s, k);
                if k == name {
                    lemma_index_of_none(t, k);
                } else {
                    match index_of(s, k) {
                        Some(j) => {
                            assert(j != i);
                            lemma_index_of_at(t, k, if j < i { j } else { j - 1 });
                        },
                        None => lemma_index_of_none(t, k),
                    }
                }
            }
            assert forall|k: Seq<char>| #[trigger] tool_map(t).contains_key(k) == tool_map(s).remove(name).contains_key(k)
                && (tool_map(t).contains_key(k) ==> tool_map(t)[k] == tool_map(s).remove(name)[k]) by {
                assert(index_of(t, k) == (if k == name {
                    None
                } else {
                    match index_of(s, k) {
                        Some(j) => Some(if j < i { j } else { j - 1 }),
                        None => None,
                    }
                }));
                lemma_index_of(s, k);
            }
            assert(tool_map(t) =~= tool_map(s).remove(name));
        },
        None => {
            assert(tool_map(s).remove(name) =~= tool_map(s));
        },
    }
}

/// The tools that can be called, by name.
pub struct ToolRegistry<T> {
    entries: Vec<ToolEntry<T>>,
}

impl<T> ToolRegistry<T> {
    #[verifier::type_invariant]
    closed spec fn names_unique(self) -> bool {
        unique_names(self.entries@)
    }

    /// The registered entries, in the order in which they were first registered.
    pub closed spec fn entries(&self) -> Seq<ToolEntry<T>> {
        self.entries@
    }

    /// The registered tools, by name.
    pub open spec fn tools(&self) -> Map<Seq<char>, ToolEntry<T>> {
        tool_map(self.entries())
    }

    /// An empty registry.
    pub fn new() -> (r: ToolRegistry<T>)
        ensures
            r.entries() == Seq::<ToolEntry<T>>::empty(),
            unique_names(r.entries()),
    {
        ToolRegistry { entries: Vec::new() }
    }

    /// Where the entry named `name` stands, if there is one.
    fn find(&self, name: &str) -> (r: Option<usize>)
        ensures
            match r {
                Some(i) => i < self.entries().len() && index_of(self.entries(), name@) == Some(i as int),
                None => index_of(self.entries(), name@) is None,
            },
    {
        let wanted = name.to_owned();
        let mut i: usize = 0;
        while i < self.entries.len()
            invariant
                i <= self.entries.len(),
                wanted@ == name@,
                forall|j: int| 0 <= j < i ==> self.entries@[j].info.name@ != name@,
            decreases self.entries.len() - i,
        {
            if self.entries[i].info.name == wanted {
                proof {
                    lemma_index_of_at(self.entries@, name@, i as int);
                }
                return Some(i);
            }
            i += 1;
        }
        proof {
            lemma_index_of_none(self.entries@, name@);
        }
        None
    }
}

/// Registers `entry` under its name; a tool already registered under that
/// name is replaced, where it stood.
pub fn register_tool<T>(registry: &mut ToolRegistry<T>, entry: ToolEntry<T>)
    ensures
        final(registry).entries() == registered(old(registry).entries(), entry),
        final(registry).tools() == old(registry).tools().insert(entry.info.name@, entry),
        unique_names(final(registry).entries()),
{
    proof {
        use_type_invariant(&*registry);
        lemma_registered(registry.entries@, entry);
    }
    let found = registry.find(entry.info.name.as_str());
    let mut taken = ToolRegistry { entries: Vec::new() };
    std::mem::swap(&mut taken, registry);
    let mut entries = taken.entries;
    match found {
        Some(i) => {
            entries.set(i, entry);
        },
        None => {
            entries.push(entry);
        },
    }
    *registry = ToolRegistry { entries };
}

/// Removes the tool registered under `name`; nothing happens if there is none.
pub fn unregister_tool<T>(registry: &mut ToolRegistry<T>, name: &str)
    ensures
        final(registry).entries() == unregistered(old(registry).entries(), name@),
        final(registry).tools() == old(registry).tools().remove(name@),
        unique_names(final(registry).entries()),
{
    proof {
        use_type_invariant(&*registry);
        lemma_unregistered(registry.entries@, name@);
    }
    match registry.find(name) {
        Some(i) => {
            let mut taken = ToolRegistry { entries: Vec::new() };
            std::mem::swap(&mut taken, registry);
            let mut entries = taken.entries;
            entries.remove(i);
            *registry = ToolRegistry { entries };
        },
        None => {},
    }
}

/// The tool registered under `name`.
pub fn get_tool<'a, T>(registry: &'a ToolRegistry<T>, name: &str) -> (r: Option<&'a T>)
    ensures
        r is Some == registry.tools().contains_key(name@),
        r is Some ==> *r->Some_0 == registry.tools()[name@].tool,
{
    match registry.find(name) {
        Some(i) => Some(&registry.entries[i].tool),
        None => None,
    }
}

/// The tool to invoke for a call to `name`; a name under which nothing is
/// registered is reported as not found.
pub fn find_tool<'a, T>(registry: &'a ToolRegistry<T>, name: &str) -> (r: Result<&'a T, AgentError>)
    ensures
        r is Ok == registry.tools().contains_key(name@),
        r is Ok ==> *r->Ok_0 == registry.tools()[name@].tool,
        r is Err ==> r->Err_0 is NotFound,
{
    match get_tool(registry, name) {
        Some(t) => Ok(t),
        None => Err(AgentError::NotFound(name.to_owned())),
    }
}

/// The descriptions of the registered tools.
pub open spec fn infos_of<T>(s: Seq<ToolEntry<T>>) -> Seq<ToolInfoView> {
    s.map_values(|e: ToolEntry<T>| e.info@)
}

/// Descriptions of all registered tools.
pub fn list_tool_infos<T>(registry: &ToolRegistry<T>) -> (r: Vec<ToolInfo>)
    ensures
        r@.map_values(|i: ToolInfo| i@) == infos_of(registry.entries()),
        unique_names(registry.entries()),
{
    proof {
        use_type_invariant(registry);
    }
    let mut out: Vec<ToolInfo> = Vec::new();
    let mut i: usize = 0;
    while i < registry.entries.len()
        invariant
            i <= registry.entries.len(),
            out.len() == i,
            forall|j: int| 0 <= j < i ==> #[trigger] out@[j]@ == registry.entries@[j].info@,
        decreases registry.entries.len() - i,
    {
        out.push(registry.entries[i].info.clone());
        i += 1;
    }
    assert(out@.map_values(|i: ToolInfo| i@) =~= infos_of(registry.entries()));
    out
}

/// Whether a tool name matches at least one of `patterns`.
pub open spec fn matches_any(patterns: Seq<Seq<char>>, name: Seq<char>) -> bool {
    exists|i: int| 0 <= i < patterns.len() && regex_matches(#[trigger] patterns[i], name)
}

/// Whether `pattern` matches a tool's name.
pub open spec fn name_matches(pattern: Seq<char>) -> spec_fn(ToolInfoView) -> bool {
    |i: ToolInfoView| regex_matches(pattern, i.name)
}

/// Whether one of `patterns` matches a tool's name.
pub open spec fn name_matches_any(patterns: Seq<Seq<char>>) -> spec_fn(ToolInfoView) -> bool {
    |i: ToolInfoView| matches_any(patterns, i.name)
}

/// Descriptions of the registered tools whose name `pattern` matches.
pub fn list_tool_infos_regex<T>(registry: &ToolRegistry<T>, pattern: &NamePattern) -> (r: Vec<ToolInfo>)
    ensures
        r@.map_values(|i: ToolInfo| i@) == infos_of(registry.entries()).filter(name_matches(pattern@)),
        unique_names(registry.entries()),
{
    proof {
        use_type_invariant(registry);
    }
    let mut patterns: Vec<&NamePattern> = Vec::new();
    patterns.push(pattern);
    let r = list_matching(registry, &patterns);
    assert(patterns@.map_values(|p: &NamePattern| p@) =~= seq![pattern@]);
    assert forall|n: Seq<char>| matches_any(seq![pattern@], n) == regex_matches(pattern@, n) by {
        if regex_matches(pattern@, n) {
            assert(seq![pattern@][0] == pattern@);
        }
    }
    assert(name_matches_any(seq![pattern@]) =~= name_matches(pattern@));
    r
}

/// Descriptions of the registered tools whose name one of `patterns` matches.
fn list_matching<T>(registry: &ToolRegistry<T>, patterns: &Vec<&NamePattern>) -> (r: Vec<ToolInfo>)
    ensures
        r@.map_values(|i: ToolInfo| i@) == infos_of(registry.entries()).filter(
            name_matches_any(patterns@.map_values(|p: &NamePattern| p@)),
        ),
{
    let ghost pats = patterns@.map_values(|p: &NamePattern| p@);
    let ghost infos = infos_of(registry.entries());
    proof {
        reveal(Seq::filter);
        assert(infos.take(0) =~= Seq::<ToolInfoView>::empty());
    }
    let mut out: Vec<ToolInfo> = Vec::new();
    let mut i: usize = 0;
    while i < registry.entries.len()
        invariant
            i <= registry.entries.len(),
            infos == infos_of(registry.entries()),
            pats == patterns@.map_values(|p: &NamePattern| p@),
            out@.map_values(|x: ToolInfo| x@) == infos.take(i as int).filter(name_matches_any(pats)),
        decreases registry.entries.len() - i,
    {
        let name = registry.entries[i].info.name.as_str();
        let mut hit = false;
        let mut p: usize = 0;
        while p < patterns.len() && !hit
            invariant
                p <= patterns.len(),
                pats == patterns@.map_values(|q: &NamePattern| q@),
                hit ==> matches_any(pats, name@),
                !hit ==> forall|q: int| 0 <= q < p ==> !regex_matches(#[trigger] pats[q], name@),
            decreases patterns.len() - p,
        {
            if patterns[p].is_match(name) {
                hit = true;
                assert(pats[p as int] == patterns@[p as int]@);
            }
            p += 1;
        }
        proof {
            if !hit {
                assert forall|q: int| 0 <= q < pats.len() implies !regex_matches(#[trigger] pats[q], name@) by {}
            }
            reveal(Seq::filter);
            assert(infos.take(i + 1).drop_last() =~= infos.take(i as int));
            assert(infos.take(i + 1).last() == registry.entries@[i as int].info@);
            assert(hit == name_matches_any(pats)(registry.entries@[i as int].info@));
        }
        if hit {
            let ghost before = out@;
            out.push(registry.entries[i].info.clone());
            assert(out@.map_values(|x: ToolInfo| x@) =~= before.map_values(|x: ToolInfo| x@).push(registry.entries@[i as int].info@));
        }
        i += 1;
    }
    assert(infos.take(i as int) =~= infos);
    out
}

/// The lines of `s` before position `i`: those that a newline ended, and the
/// one still open.
pub open spec fn lines_upto(s: Seq<char>, i: int) -> (Seq<Seq<char>>, Seq<char>)
    decreases i,
{
    if i <= 0 {
        (Seq::empty(), Seq::empty())
    } else {
        let (done, open) = lines_upto(s, i - 1);
        if s[i - 1] == '\n' {
            (done.push(open), Seq::empty())
        } else {
            (done, open.push(s[i - 1]))
        }
    }
}

/// The lines of `s`, split at each newline.
pub open spec fn lines_of(s: Seq<char>) -> Seq<Seq<char>> {
    lines_upto(s, s.len() as int).0.push(lines_upto(s, s.len() as int).1)
}

/// Whether a character is white space in the sense of Unicode's White_Space
/// property, as `char::is_whitespace` and `str::trim` take it.
pub open spec fn is_white(c: char) -> bool {
    let u = c as u32;
    u == 0x20 || (0x09 <= u && u <= 0x0D) || u == 0x85 || u == 0xA0 || u == 0x1680 || (0x2000 <= u && u
        <= 0x200A) || u == 0x2028 || u == 0x2029 || u == 0x202F || u == 0x205F || u == 0x3000
}

/// `s` without its leading white space.
pub open spec fn trim_start(s: Seq<char>) -> Seq<char>
    decreases s.len(),
{
    if s.len() > 0 && is_white(s[0]) {
        trim_start(s.drop_first())
    } else {
        s
    }
}

/// `s` without its trailing white space.
pub open spec fn trim_end(s: Seq<char>) -> Seq<char>
    decreases s.len(),
{
    if s.len() > 0 && is_white(s.last()) {
        trim_end(s.drop_last())
    } else {
        s
    }
}

/// `s` without white space at either end.
pub open spec fn trimmed(s: Seq<char>) -> Seq<char> {
    trim_end(trim_start(s))
}

/// The lines of `text`, each trimmed.
pub open spec fn trimmed_lines(text: Seq<char>) -> Seq<Seq<char>> {
    lines_of(text).map_values(|l: Seq<char>| trimmed(l))
}

/// Whether a line holds something.
pub open spec fn not_blank() -> spec_fn(Seq<char>) -> bool {
    |line: Seq<char>| line.len() > 0
}

/// The patterns of a newline-separated list: its lines, trimmed, that hold
/// something.
pub open spec fn pattern_lines(text: Seq<char>) -> Seq<Seq<char>> {
    trimmed_lines(text).filter(not_blank())
}

/// Filtering a prefix gives a prefix of the filtered sequence.
pub proof fn lemma_filter_prefix<A>(s: Seq<A>, pred: spec_fn(A) -> bool, k: int)
    requires
        0 <= k <= s.len(),
    ensures
        s.take(k).filter(pred) == s.filter(pred).take(s.take(k).filter(pred).len() as int),
    decreases s.len(),
{
    reveal(Seq::filter);
    if k == s.len() {
        assert(s.take(k) =~= s);
        assert(s.filter(pred).take(s.filter(pred).len() as int) =~= s.filter(pred));
    } else {
        let d = s.drop_last();
        lemma_filter_prefix(d, pred, k);
        assert(d.take(k) =~= s.take(k));
        let m = s.take(k).filter(pred).len() as int;
        d.take(k).lemma_filter_len(pred);
        lemma_filter_prefix_len(d, pred, k);
        assert(s.filter(pred).take(m) =~= d.filter(pred).take(m));
    }
}

proof fn lemma_filter_prefix_len<A>(s: Seq<A>, pred: spec_fn(A) -> bool, k: int)
    requires
        0 <= k <= s.len(),
    ensures
        s.take(k).filter(pred).len() <= s.filter(pred).len(),
    decreases s.len(),
{
    reveal(Seq::filter);
    if k == s.len() {
        assert(s.take(k) =~= s);
    } else {
        let d = s.drop_last();
        lemma_filter_prefix_len(d, pred, k);
        assert(d.take(k) =~= s.take(k));
    }
}

/// The lines of `text`.
fn split_lines(text: &str) -> (r: Vec<String>)
    ensures
        r@.map_values(|l: String| l@) == lines_of(text@),
{
    let n = text.unicode_len();
    let mut lines: Vec<String> = Vec::new();
    let mut start: usize = 0;
    let mut i: usize = 0;
    while i < n
        invariant
            start <= i <= n,
            n == text@.len(),
            lines@.map_values(|l: String| l@) == lines_upto(text@, i as int).0,
            lines_upto(text@, i as int).1 == text@.subrange(start as int, i as int),
        decreases n - i,
    {
        let c = text.get_char(i);
        if c == '\n' {
            let ghost before = lines@;
            lines.push(text.substring_char(start, i).to_owned());
            assert(lines@.map_values(|l: String| l@) =~= before.map_values(|l: String| l@).push(text@.subrange(start as int, i as int)));
            start = i + 1;
            assert(text@.subrange(start as int, i + 1) =~= Seq::<char>::empty());
        } else {
            assert(text@.subrange(start as int, i + 1) =~= text@.subrange(start as int, i as int).push(c));
        }
        i += 1;
    }
    let ghost before = lines@;
    lines.push(text.substring_char(start, n).to_owned());
    assert(lines@.map_values(|l: String| l@) =~= before.map_values(|l: String| l@).push(text@.subrange(start as int, n as int)));
    lines
}

fn white_char(c: char) -> (r: bool)
    ensures
        r == is_white(c),
{
    let u = c as u32;
    u == 0x20 || (0x09 <= u && u <= 0x0D) || u == 0x85 || u == 0xA0 || u == 0x1680 || (0x2000 <= u && u
        <= 0x200A) || u == 0x2028 || u == 0x2029 || u == 0x202F || u == 0x205F || u == 0x3000
}

/// `s` without white space at either end.
pub fn trim_text(s: &str) -> (r: String)
    ensures
        r@ == trimmed(s@),
{
    let n = s.unicode_len();
    let mut lo: usize = 0;
    assert(s@.subrange(0, n as int) =~= s@);
    while lo < n && white_char(s.get_char(lo))
        invariant
            lo <= n,
            n == s@.len(),
            trim_start(s@) == trim_start(s@.subrange(lo as int, n as int)),
        decreases n - lo,
    {
        assert(s@.subrange(lo as int, n as int).drop_first() =~= s@.subrange(lo + 1, n as int));
        lo += 1;
    }
    let ghost rest = s@.subrange(lo as int, n as int);
    assert(trim_start(s@) == rest);
    let mut hi: usize = n;
    while hi > lo && white_char(s.get_char(hi - 1))
        invariant
            lo <= hi <= n,
            n == s@.len(),
            rest == s@.subrange(lo as int, n as int),
            trim_end(rest) == trim_end(s@.subrange(lo as int, hi as int)),
        decreases hi,
    {
        assert(s@.subrange(lo as int, hi as int).drop_last() =~= s@.subrange(lo as int, hi - 1));
        hi -= 1;
    }
    s.substring_char(lo, hi).to_owned()
}

/// The lines of `text`, each trimmed.
fn split_trimmed_lines(text: &str) -> (r: Vec<String>)
    ensures
        r@.map_values(|l: String| l@) == trimmed_lines(text@),
{
    let lines = split_lines(text);
    let mut out: Vec<String> = Vec::new();
    let mut i: usize = 0;
    while i < lines.len()
        invariant
            i <= lines.len(),
            out.len() == i,
            forall|j: int| 0 <= j < i ==> #[trigger] out@[j]@ == trimmed(lines@[j]@),
        decreases lines.len() - i,
    {
        out.push(trim_text(lines[i].as_str()));
        i += 1;
    }
    assert forall|j: int| 0 <= j < out@.len() implies out@.map_values(|l: String| l@)[j] == #[trigger] trimmed_lines(text@)[j] by {
        assert(lines@.map_values(|l: String| l@)[j] == lines@[j]@);
    }
    assert(out@.map_values(|l: String| l@) =~= trimmed_lines(text@));
    out
}

/// The descriptions of the tools that a newline-separated list of patterns
/// selects: those whose name one of the patterns matches, or all of them when
/// the list holds no pattern. Each line is trimmed, and blank lines are
/// ignored; a pattern that does not compile is a configuration error.
pub fn list_tool_infos_patterns<T>(registry: &ToolRegistry<T>, patterns: &str) -> (r: Result<Vec<ToolInfo>, AgentError>)
    ensures
        r is Ok == (forall|i: int| 0 <= i < pattern_lines(patterns@).len() ==> regex_compiles(#[trigger] pattern_lines(patterns@)[i])),
        r is Ok ==> r->Ok_0@.map_values(|i: ToolInfo| i@) == (if pattern_lines(patterns@).len() == 0 {
            infos_of(registry.entries())
        } else {
            infos_of(registry.entries()).filter(name_matches_any(pattern_lines(patterns@)))
        }),
        r is Err ==> r->Err_0 is InvalidConfig,
{
    let lines = split_trimmed_lines(patterns);
    let ghost all = trimmed_lines(patterns@);
    let mut compiled: Vec<NamePattern> = Vec::new();
    let mut i: usize = 0;
    proof {
        reveal(Seq::filter);
        assert(all.take(0) =~= Seq::<Seq<char>>::empty());
    }
    while i < lines.len()
        invariant
            i <= lines.len(),
            lines@.map_values(|l: String| l@) == all,
            all == trimmed_lines(patterns@),
            compiled@.map_values(|p: NamePattern| p@) == all.take(i as int).filter(not_blank()),
            forall|j: int| 0 <= j < compiled@.len() ==> regex_compiles(#[trigger] compiled@[j]@),
        decreases lines.len() - i,
    {
        proof {
            reveal(Seq::filter);
            assert(all.take(i + 1).drop_last() =~= all.take(i as int));
            assert(all.take(i + 1).last() == lines@[i as int]@);
        }
        if !lines[i].as_str().is_empty() {
            match NamePattern::new(lines[i].as_str()) {
                Ok(p) => {
                    let ghost before = compiled@;
                    compiled.push(p);
                    assert(compiled@.map_values(|p: NamePattern| p@) =~= before.map_values(|p: NamePattern| p@).push(lines@[i as int]@));
                },
                Err(e) => {
                    proof {
                        reveal(Seq::filter);
                        let f = all.take(i + 1).filter(not_blank());
                        assert(not_blank()(all.take(i + 1).last()));
                        assert(f == all.take(i as int).filter(not_blank()).push(lines@[i as int]@));
                        assert(f.last() == lines@[i as int]@);
                        lemma_filter_prefix(all, not_blank(), i + 1);
                        lemma_filter_prefix_len(all, not_blank(), i + 1);
                        assert(f.len() >= 1);
                        let pl = all.filter(not_blank());
                        assert(pl == pattern_lines(patterns@));
                        assert(f.len() <= pl.len());
                        assert(f == pl.take(f.len() as int));
                        assert(pl.take(f.len() as int)[f.len() - 1] == pl[f.len() - 1]);
                        assert(pattern_lines(patterns@)[f.len() - 1] == lines@[i as int]@);
                    }
                    return Err(e);
                },
            }
        }
        i += 1;
    }
    assert(all.take(i as int) =~= all);
    let ghost pats = pattern_lines(patterns@);
    assert(compiled@.map_values(|p: NamePattern| p@) == pats);
    if compiled.len() == 0 {
        return Ok(list_tool_infos(registry));
    }
    let mut refs: Vec<&NamePattern> = Vec::new();
    let mut k: usize = 0;
    while k < compiled.len()
        invariant
            k <= compiled.len(),
            refs@.len() == k,
            forall|j: int| 0 <= j < k ==> #[trigger] refs@[j]@ == compiled@[j]@,
        decreases compiled.len() - k,
    {
        refs.push(&compiled[k]);
        k += 1;
    }
    assert(refs@.map_values(|p: &NamePattern| p@) =~= pats);
    Ok(list_matching(registry, &refs))
}

/// The JSON text of an array of strings.
pub uninterp spec fn json_of_texts(texts: Seq<Seq<char>>) -> Seq<char>;

/// Relies on serde_json::to_string: the JSON text of an array of strings,
/// which depends on the strings alone; writing strings to memory cannot fail.
#[verifier::external_body]
fn texts_to_json(texts: &Vec<String>) -> (r: String)
    ensures
        r@ == json_of_texts(texts@.map_values(|t: String| t@)),
{
    serde_json::to_string(texts).unwrap_or_default()
}

/// The wire shape of a list of texts: an array of strings.
pub open spec fn texts_value(texts: Seq<String>) -> ValueView {
    ValueView::Array(texts.map_values(|t: String| ValueView::String(t@)))
}

/// The value of a tool's result, given the texts of its content: an array of
/// those texts; when the tool reports an error, a failure whose message is
/// that array as JSON.
pub fn tool_result_value(texts: Vec<String>, is_error: Option<bool>) -> (r: Result<Value, AgentError>)
    ensures
        is_error == Some(true) ==> r is Err && r->Err_0 is Other
            && r->Err_0->Other_0@ == json_of_texts(texts@.map_values(|t: String| t@)),
        is_error != Some(true) ==> r is Ok && r->Ok_0@ == texts_value(texts@),
{
    let failed = match is_error {
        Some(b) => b,
        None => false,
    };
    if failed {
        return Err(AgentError::Other(texts_to_json(&texts)));
    }
    let mut items: Vec<Value> = Vec::new();
    let mut i: usize = 0;
    while i < texts.len()
        invariant
            i <= texts.len(),
            items.len() == i,
            forall|j: int| 0 <= j < i ==> #[trigger] items[j]@ == ValueView::String(texts[j]@),
        decreases texts.len() - i,
    {
        items.push(Value::String(texts[i].clone()));
        i += 1;
    }
    let r = Value::Array(items);
    assert forall|j: int| 0 <= j < items.len() implies #[trigger] r@->Array_0[j] == texts_value(texts@)->Array_0[j] by {
        assert(r@->Array_0[j] == items[j]@);
    }
    assert(r@->Array_0 =~= texts_value(texts@)->Array_0);
    Ok(r)
}

/// Calls that wait for an answer, each under its correlation id.
pub struct PendingCalls<S> {
    slots: HashMap<usize, S>,
}

impl<S> View for PendingCalls<S> {
    type V = Map<usize, S>;

    closed spec fn view(&self) -> Map<usize, S> {
        self.slots@
    }
}

impl<S> PendingCalls<S> {
    /// No call waits.
    pub fn new() -> (r: PendingCalls<S>)
        ensures
            r@ == Map::<usize, S>::empty(),
    {
        PendingCalls { slots: HashMap::new() }
    }

    /// Call `id` now waits on `slot`; a call waiting under the same id is
    /// forgotten.
    pub fn open(&mut self, id: usize, slot: S)
        ensures
            final(self)@ == old(self)@.insert(id, slot),
    {
        self.slots.insert(id, slot);
    }

    /// The slot of call `id`, which no longer waits; nothing if it did not.
    pub fn take(&mut self, id: usize) -> (r: Option<S>)
        ensures
            r is Some == old(self)@.contains_key(id),
            r is Some ==> r->Some_0 == old(self)@[id],
            final(self)@ == old(self)@.remove(id),
    {
        self.slots.remove(&id)
    }

    /// No call waits any longer.
    pub fn clear(&mut self)
        ensures
            final(self)@ == Map::<usize, S>::empty(),
    {
        self.slots.clear();
    }
}

} // verus!
