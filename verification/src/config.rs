use std::collections::BTreeMap;

use figment::providers::Format;
use figment::value::Value;
use vstd::prelude::*;
use vstd::string::*;

use crate::errors::Error;

verus! {

/// One adapter entry of the resolved configuration. The routing core reads
/// nothing of an adapter's settings beyond whether it is enabled.
#[derive(Clone, Copy, Debug, PartialEq, Eq, Structural)]
pub struct AdapterConfig {
    pub enabled: bool,
}

impl AdapterConfig {
    /// The one capability the core needs of a concrete adapter configuration.
    pub fn is_enabled(&self) -> (r: bool)
        ensures
            r == self.enabled,
    {
        self.enabled
    }
}

/// Which of the two independent namespaces an entry lives in.
#[derive(Clone, Copy, Debug, PartialEq, Eq, Structural)]
pub enum Role {
    Source,
    Sink,
}

/// One key/value pair contributed by a configuration layer: it sets the
/// `enabled` flag of the named source or sink.
pub struct Assignment {
    pub role: Role,
    pub name: String,
    pub enabled: bool,
}

/// The resolved configuration: named source entries and named sink entries.
/// Names are unique within each role; the two namespaces are independent.
pub struct Config {
    pub sources: Vec<(String, AdapterConfig)>,
    pub sinks: Vec<(String, AdapterConfig)>,
}

/// Names are pairwise distinct within one role's entry list.
pub open spec fn unique_names(s: Seq<(String, AdapterConfig)>) -> bool {
    forall|i: int, j: int| 0 <= i < j < s.len() ==> s[i].0@ != s[j].0@
}

/// The mathematical content of an entry list: a map from adapter name to its
/// enabled flag.
pub open spec fn entries_map(s: Seq<(String, AdapterConfig)>) -> Map<Seq<char>, bool>
    decreases s.len(),
{
    if s.len() == 0 {
        Map::empty()
    } else {
        entries_map(s.drop_last()).insert(s.last().0@, s.last().1.enabled)
    }
}

impl Config {
    pub open spec fn sources_map(&self) -> Map<Seq<char>, bool> {
        entries_map(self.sources@)
    }

    pub open spec fn sinks_map(&self) -> Map<Seq<char>, bool> {
        entries_map(self.sinks@)
    }

    pub open spec fn wf(&self) -> bool {
        unique_names(self.sources@) && unique_names(self.sinks@)
    }

    /// Look a sink up by name.
    pub fn sink(&self, name: &str) -> (r: Option<AdapterConfig>)
        requires
            self.wf(),
        ensures
            match r {
                Some(c) => self.sinks_map().contains_key(name@) && self.sinks_map()[name@]
                    == c.enabled,
                None => !self.sinks_map().contains_key(name@),
            },
    {
        lookup(&self.sinks, name)
    }

    /// Look a source up by name.
    pub fn source(&self, name: &str) -> (r: Option<AdapterConfig>)
        requires
            self.wf(),
        ensures
            match r {
                Some(c) => self.sources_map().contains_key(name@) && self.sources_map()[name@]
                    == c.enabled,
                None => !self.sources_map().contains_key(name@),
            },
    {
        lookup(&self.sources, name)
    }
}

impl Default for Config {
    /// The compiled-in defaults, the lowest layer: no entry at all.
    fn default() -> (r: Config)
        ensures
            r.wf(),
            r.sources_map() == Map::<Seq<char>, bool>::empty(),
            r.sinks_map() == Map::<Seq<char>, bool>::empty(),
    {
        Config { sources: Vec::new(), sinks: Vec::new() }
    }
}

/// A name is in the map exactly when some entry carries it.
proof fn lemma_entries_map_contains(s: Seq<(String, AdapterConfig)>, n: Seq<char>)
    ensures
        entries_map(s).contains_key(n) <==> exists|i: int| 0 <= i < s.len() && s[i].0@ == n,
    decreases s.len(),
{
    if s.len() > 0 {
        lemma_entries_map_contains(s.drop_last(), n);
        if s.last().0@ != n && entries_map(s).contains_key(n) {
            let i = choose|i: int| 0 <= i < s.drop_last().len() && s.drop_last()[i].0@ == n;
            assert(s[i].0@ == n);
        }
        if exists|i: int| 0 <= i < s.len() && s[i].0@ == n {
            let i = choose|i: int| 0 <= i < s.len() && s[i].0@ == n;
            if i < s.len() - 1 {
                assert(s.drop_last()[i].0@ == n);
            }
        }
    }
}

/// With unique names, the map sends each entry's name to that entry's flag.
proof fn lemma_entries_map_index(s: Seq<(String, AdapterConfig)>, i: int)
    requires
        unique_names(s),
        0 <= i < s.len(),
    ensures
        entries_map(s).contains_key(s[i].0@),
        entries_map(s)[s[i].0@] == s[i].1.enabled,
    decreases s.len(),
{
    if i == s.len() - 1 {
    } else {
        assert(unique_names(s.drop_last()));
        assert(s.drop_last()[i] == s[i]);
        lemma_entries_map_index(s.drop_last(), i);
        assert(s[i].0@ != s.last().0@);
    }
}

/// Updating the flag of the entry at `i` updates exactly that key of the map.
proof fn lemma_entries_map_update(s: Seq<(String, AdapterConfig)>, i: int, v: bool)
    requires
        unique_names(s),
        0 <= i < s.len(),
    ensures
        entries_map(s.update(i, (s[i].0, AdapterConfig { enabled: v }))) == entries_map(s).insert(
            s[i].0@,
            v,
        ),
    decreases s.len(),
{
    let t = s.update(i, (s[i].0, AdapterConfig { enabled: v }));
    if i == s.len() - 1 {
        assert(t.drop_last() =~= s.drop_last());
        assert(entries_map(t) =~= entries_map(s).insert(s[i].0@, v));
    } else {
        assert(unique_names(s.drop_last()));
        assert(s.drop_last()[i] == s[i]);
        lemma_entries_map_update(s.drop_last(), i, v);
        assert(t.drop_last() =~= s.drop_last().update(i, (s[i].0, AdapterConfig { enabled: v })));
        assert(t.last() == s.last());
        assert(s[i].0@ != s.last().0@);
        assert(entries_map(t) =~= entries_map(s).insert(s[i].0@, v));
    }
}

/// Appending an entry inserts its key.
proof fn lemma_entries_map_push(s: Seq<(String, AdapterConfig)>, name: String, v: bool)
    ensures
        entries_map(s.push((name, AdapterConfig { enabled: v }))) == entries_map(s).insert(
            name@,
            v,
        ),
{
    assert(s.push((name, AdapterConfig { enabled: v })).drop_last() =~= s);
}

/// Character-exact equality of two string slices.
pub fn str_eq(a: &str, b: &str) -> (r: bool)
    ensures
        r == (a@ == b@),
{
    let alen = a.unicode_len();
    let blen = b.unicode_len();
    if alen != blen {
        proof {
            assert(a@ != b@);
        }
        return false;
    }
    let mut i: usize = 0;
    while i < alen
        invariant
            alen == a@.len(),
            alen == b@.len(),
            i <= alen,
            forall|j: int| 0 <= j < i ==> a@[j] == b@[j],
        decreases alen - i,
    {
        if a.get_char(i) != b.get_char(i) {
            proof {
                assert(a@[i as int] != b@[i as int]);
            }
            return false;
        }
        i = i + 1;
    }
    proof {
        assert(a@ =~= b@);
    }
    true
}

/// Find the entry carrying `name`, if any.
fn lookup(entries: &Vec<(String, AdapterConfig)>, name: &str) -> (r: Option<AdapterConfig>)
    requires
        unique_names(entries@),
    ensures
        match r {
            Some(c) => entries_map(entries@).contains_key(name@) && entries_map(entries@)[name@]
                == c.enabled,
            None => !entries_map(entries@).contains_key(name@),
        },
{
    let n = entries.len();
    let mut i: usize = 0;
    while i < n
        invariant
            unique_names(entries@),
            n == entries@.len(),
            i <= n,
            forall|j: int| 0 <= j < i ==> entries@[j].0@ != name@,
        decreases n - i,
    {
        if str_eq(entries[i].0.as_str(), name) {
            proof {
                lemma_entries_map_index(entries@, i as int);
            }
            return Some(entries[i].1);
        }
        i = i + 1;
    }
    proof {
        lemma_entries_map_contains(entries@, name@);
    }
    None
}

/// Set `name`'s flag in one role's entry list: the existing entry is updated,
/// or a new entry appended. The map view gains exactly this one key.
fn upsert(entries: &mut Vec<(String, AdapterConfig)>, name: &String, enabled: bool)
    requires
        unique_names(old(entries)@),
    ensures
        unique_names(final(entries)@),
        entries_map(final(entries)@) == entries_map(old(entries)@).insert(name@, enabled),
{
    let n = entries.len();
    let mut i: usize = 0;
    while i < n
        invariant
            unique_names(entries@),
            entries@ == old(entries)@,
            n == entries@.len(),
            i <= n,
            forall|j: int| 0 <= j < i ==> entries@[j].0@ != name@,
        decreases n - i,
    {
        if str_eq(entries[i].0.as_str(), name.as_str()) {
            let (old_name, _) = entries.remove(i);
            entries.insert(i, (old_name, AdapterConfig { enabled }));
            proof {
                assert(entries@ =~= old(entries)@.update(
                    i as int,
                    (old(entries)@[i as int].0, AdapterConfig { enabled }),
                ));
                lemma_entries_map_update(old(entries)@, i as int, enabled);
                assert(unique_names(entries@));
            }
            return ;
        }
        i = i + 1;
    }
    entries.push((name.clone(), AdapterConfig { enabled }));
    proof {
        assert(entries@ == old(entries)@.push((*name, AdapterConfig { enabled })));
        lemma_entries_map_push(old(entries)@, *name, enabled);
        assert forall|i2: int, j2: int|
            0 <= i2 < j2 < entries@.len() implies entries@[i2].0@ != entries@[j2].0@ by {
            if j2 < entries@.len() - 1 {
                assert(old(entries)@[i2].0@ != old(entries)@[j2].0@);
            }
        }
    }
}

/// The rows of a parsed configuration document, as plain values: one row per
/// leaf field of a named entry, `(section, entry name, field name, value)` —
/// the boolean a leaf holds, or nothing when it holds any other shape. Such a
/// field belongs to the adapter itself, which the core never reads.
pub open spec fn rows_view(s: Seq<(String, String, String, Option<bool>)>) -> Seq<
    (Seq<char>, Seq<char>, Seq<char>, Option<bool>),
> {
    s.map_values(|row: (String, String, String, Option<bool>)| (row.0@, row.1@, row.2@, row.3))
}

/// What the document parser yields on a given text: `None` when the text does
/// not parse, otherwise every leaf field of its named entries, in a fixed
/// order. The rows are a function of the text alone.
pub uninterp spec fn parsed_document(text: Seq<char>) -> Option<
    Seq<(Seq<char>, Seq<char>, Seq<char>, Option<bool>)>,
>;

/// Relies on figment's TOML provider and extraction: a document either fails
/// to parse, or yields one row per leaf field of its named entries — boolean
/// leaves with their value, every other leaf opaquely; sections and entries
/// come out in key order, so the rows depend on the text alone.
#[verifier::external_body]
fn parse_document(text: &str) -> (r: Option<Vec<(String, String, String, Option<bool>)>>)
    ensures
        r is Some <==> parsed_document(text@) is Some,
        r matches Some(v) ==> parsed_document(text@) == Some(rows_view(v@)),
{
    let fig = figment::Figment::from(figment::providers::Toml::string(text));
    let table = fig.extract::<BTreeMap<String, Value>>().ok()?;
    let mut out = Vec::new();
    for (section, sv) in table {
        let Value::Dict(_, entries) = sv else { continue };
        for (name, nv) in entries {
            let Value::Dict(_, fields) = nv else { continue };
            for (field, fv) in fields {
                let leaf = if let Value::Bool(_, b) = fv { Some(b) } else { None };
                out.push((section.clone(), name.clone(), field, leaf));
            }
        }
    }
    Some(out)
}

/// The baseline shipped with the binary, the layer right above the
/// compiled-in empty defaults: the canonical adapter kinds, each disabled
/// until a higher layer turns it on.
pub open spec fn baseline_asgs() -> Seq<(Role, Seq<char>, bool)> {
    seq![
        (Role::Source, "cdevents_webhook"@, false),
        (Role::Source, "cdevents_local_json"@, false),
        (Role::Sink, "debug"@, false),
        (Role::Sink, "db"@, false),
    ]
}

/// The baseline entries as a layer of assignments.
pub fn baseline_assignments() -> (r: Vec<Assignment>)
    ensures
        asgs_view(r@) == baseline_asgs(),
{
    let mut v: Vec<Assignment> = Vec::new();
    v.push(Assignment { role: Role::Source, name: "cdevents_webhook".to_owned(), enabled: false });
    v.push(
        Assignment { role: Role::Source, name: "cdevents_local_json".to_owned(), enabled: false },
    );
    v.push(Assignment { role: Role::Sink, name: "debug".to_owned(), enabled: false });
    v.push(Assignment { role: Role::Sink, name: "db".to_owned(), enabled: false });
    proof {
        assert(asgs_view(v@) =~= baseline_asgs());
    }
    v
}

/// The assignments a document's rows contribute. A row speaks to the core
/// exactly when its section names one of the two roles and its field is the
/// `enabled` flag; such a flag must hold a boolean — anything else fails the
/// schema. Every other row belongs to the adapter itself and is passed over.
pub open spec fn doc_asgs(rows: Seq<(Seq<char>, Seq<char>, Seq<char>, Option<bool>)>) -> Option<
    Seq<(Role, Seq<char>, bool)>,
>
    decreases rows.len(),
{
    if rows.len() == 0 {
        Some(Seq::empty())
    } else {
        match doc_asgs(rows.drop_last()) {
            Option::None => None,
            Option::Some(rest) => {
                let row = rows.last();
                let role = if row.0 == "sources"@ {
                    Some(Role::Source)
                } else if row.0 == "sinks"@ {
                    Some(Role::Sink)
                } else {
                    Option::<Role>::None
                };
                match role {
                    Option::Some(ro) => if row.2 == "enabled"@ {
                        match row.3 {
                            Option::Some(b) => Some(rest.push((ro, row.1, b))),
                            Option::None => None,
                        }
                    } else {
                        Some(rest)
                    },
                    Option::None => Some(rest),
                }
            },
        }
    }
}

/// Once a prefix of the rows fails the schema, the whole document does.
proof fn lemma_doc_asgs_none_extends(
    rows: Seq<(Seq<char>, Seq<char>, Seq<char>, Option<bool>)>,
    k: int,
    k2: int,
)
    requires
        0 <= k <= k2 <= rows.len(),
        doc_asgs(rows.subrange(0, k)) is None,
    ensures
        doc_asgs(rows.subrange(0, k2)) is None,
    decreases k2 - k,
{
    if k2 > k {
        lemma_doc_asgs_none_extends(rows, k, k2 - 1);
        assert(rows.subrange(0, k2).drop_last() =~= rows.subrange(0, k2 - 1));
    }
}

/// The plain view of a list of assignments.
pub open spec fn asgs_view(s: Seq<Assignment>) -> Seq<(Role, Seq<char>, bool)> {
    s.map_values(|a: Assignment| (a.role, a.name@, a.enabled))
}

/// Turn a parsed document's rows into the assignments they contribute, or
/// report the schema failure of an `enabled` flag that holds no boolean.
fn document_assignments(rows: &Vec<(String, String, String, Option<bool>)>) -> (r: Option<
    Vec<Assignment>,
>)
    ensures
        match r {
            Some(v) => doc_asgs(rows_view(rows@)) == Some(asgs_view(v@)),
            None => doc_asgs(rows_view(rows@)) is None,
        },
{
    let n = rows.len();
    let mut out: Vec<Assignment> = Vec::new();
    let mut i: usize = 0;
    while i < n
        invariant
            n == rows@.len(),
            i <= n,
            doc_asgs(rows_view(rows@).subrange(0, i as int)) == Some(asgs_view(out@)),
        decreases n - i,
    {
        proof {
            assert(rows_view(rows@).subrange(0, i as int + 1).drop_last() =~= rows_view(
                rows@,
            ).subrange(0, i as int));
            assert(rows_view(rows@).subrange(0, i as int + 1).last() == rows_view(
                rows@,
            )[i as int]);
        }
        let is_enabled_field = str_eq(rows[i].2.as_str(), "enabled");
        let role: Option<Role> = if str_eq(rows[i].0.as_str(), "sources") {
            Some(Role::Source)
        } else if str_eq(rows[i].0.as_str(), "sinks") {
            Some(Role::Sink)
        } else {
            None
        };
        match role {
            Some(role) if is_enabled_field => match rows[i].3 {
                Some(b) => {
                    let a = Assignment { role, name: rows[i].1.clone(), enabled: b };
                    out.push(a);
                    proof {
                        assert(asgs_view(out@) =~= asgs_view(out@.drop_last()).push(
                            (role, rows@[i as int].1@, b),
                        ));
                    }
                },
                None => {
                    proof {
                        lemma_doc_asgs_none_extends(rows_view(rows@), i as int + 1, n as int);
                        assert(rows_view(rows@).subrange(0, n as int) =~= rows_view(rows@));
                    }
                    return None;
                },
            },
            _ => {},
        }
        i = i + 1;
    }
    proof {
        assert(rows_view(rows@).subrange(0, n as int) =~= rows_view(rows@));
    }
    Some(out)
}

/// Apply one layer's assignments on top of the configuration resolved so far:
/// within each role, a later assignment for the same name overrides an
/// earlier one.
pub open spec fn applied(
    m: Map<Seq<char>, bool>,
    asgs: Seq<(Role, Seq<char>, bool)>,
    role: Role,
) -> Map<Seq<char>, bool>
    decreases asgs.len(),
{
    if asgs.len() == 0 {
        m
    } else {
        let rest = applied(m, asgs.drop_last(), role);
        if asgs.last().0 == role {
            rest.insert(asgs.last().1, asgs.last().2)
        } else {
            rest
        }
    }
}

/// Apply a layer's assignments to the configuration, role by role.
fn apply_assignments(config: &mut Config, asgs: &Vec<Assignment>)
    requires
        old(config).wf(),
    ensures
        final(config).wf(),
        final(config).sources_map() == applied(
            old(config).sources_map(),
            asgs_view(asgs@),
            Role::Source,
        ),
        final(config).sinks_map() == applied(
            old(config).sinks_map(),
            asgs_view(asgs@),
            Role::Sink,
        ),
{
    let n = asgs.len();
    let mut i: usize = 0;
    while i < n
        invariant
            config.wf(),
            n == asgs@.len(),
            i <= n,
            config.sources_map() == applied(
                old(config).sources_map(),
                asgs_view(asgs@).subrange(0, i as int),
                Role::Source,
            ),
            config.sinks_map() == applied(
                old(config).sinks_map(),
                asgs_view(asgs@).subrange(0, i as int),
                Role::Sink,
            ),
        decreases n - i,
    {
        proof {
            assert(asgs_view(asgs@).subrange(0, i as int + 1).drop_last() =~= asgs_view(
                asgs@,
            ).subrange(0, i as int));
            assert(asgs_view(asgs@).subrange(0, i as int + 1).last() == asgs_view(
                asgs@,
            )[i as int]);
        }
        match asgs[i].role {
            Role::Source => upsert(&mut config.sources, &asgs[i].name, asgs[i].enabled),
            Role::Sink => upsert(&mut config.sinks, &asgs[i].name, asgs[i].enabled),
        }
        i = i + 1;
    }
    proof {
        assert(asgs_view(asgs@).subrange(0, n as int) =~= asgs_view(asgs@));
    }
}

/// ASCII lower-casing of one character: upper-case letters move down by the
/// case distance, everything else is kept.
pub open spec fn lower_char(c: char) -> char {
    if 'A' <= c && c <= 'Z' {
        ((c as u8) + 32) as char
    } else {
        c
    }
}

/// ASCII lower-casing of a character sequence.
pub open spec fn lower_seq(s: Seq<char>) -> Seq<char> {
    s.map_values(|c: char| lower_char(c))
}

/// Relies on String::push: it appends exactly the one character.
#[verifier::external_body]
fn push_char(s: &mut String, c: char)
    ensures
        final(s)@ == old(s)@.push(c),
{
    s.push(c);
}

/// ASCII lower-casing, character by character.
fn ascii_lowercase(s: &str) -> (r: String)
    ensures
        r@ == lower_seq(s@),
{
    let n = s.unicode_len();
    let mut out = String::new();
    let mut i: usize = 0;
    while i < n
        invariant
            n == s@.len(),
            i <= n,
            out@ == lower_seq(s@).subrange(0, i as int),
        decreases n - i,
    {
        let c = s.get_char(i);
        let lc: char = if 'A' <= c && c <= 'Z' {
            ((c as u8) + 32) as char
        } else {
            c
        };
        push_char(&mut out, lc);
        proof {
            assert(lc == lower_char(s@[i as int]));
            assert(lower_seq(s@).subrange(0, i as int + 1) =~= lower_seq(s@).subrange(
                0,
                i as int,
            ).push(lower_char(s@[i as int])));
        }
        i = i + 1;
    }
    proof {
        assert(lower_seq(s@).subrange(0, n as int) =~= lower_seq(s@));
    }
    out
}

/// The full lower-cased key prefix that addresses one role's entries from the
/// environment: the collector's fixed prefix, the section, and the
/// two-character nesting separator.
pub open spec fn env_prefix(role: Role) -> Seq<char> {
    match role {
        Role::Source => "cdviz_collector__sources__"@,
        Role::Sink => "cdviz_collector__sinks__"@,
    }
}

/// No two adjacent underscores: such a pair would denote one more nesting
/// level, not a character of a name.
pub open spec fn no_double_underscore(s: Seq<char>) -> bool {
    forall|j: int| 0 <= j < s.len() - 1 ==> !((#[trigger] s[j]) == '_' && s[j + 1] == '_')
}

/// An environment key addresses the `enabled` flag of the entry `name` of
/// `role` exactly when, lower-cased, it is the role's prefix, then the name
/// (non-empty, with no nested separator), then `__enabled`.
pub open spec fn env_override(key: Seq<char>, role: Role, name: Seq<char>) -> bool {
    &&& lower_seq(key) == env_prefix(role) + name + "__enabled"@
    &&& name.len() > 0
    &&& no_double_underscore(name)
}

/// The boolean an environment value denotes, if any.
pub open spec fn bool_value(v: Seq<char>) -> Option<bool> {
    if v == "true"@ {
        Some(true)
    } else if v == "false"@ {
        Some(false)
    } else {
        None
    }
}

/// What one environment pair means to the resolver.
pub enum EnvParse {
    /// The key does not address an `enabled` flag of a source or sink.
    Skip,
    /// The key addresses a flag but the value is not a boolean.
    Bad,
    /// The key sets this flag.
    Assign(Assignment),
}

/// The plain-value counterpart of `EnvParse`.
pub enum EnvParseV {
    Skip,
    Bad,
    Assign(Role, Seq<char>, bool),
}

/// What one environment pair contributes: the matching role's assignment when
/// the key addresses an enabled flag and the value is boolean, a schema error
/// when the value is not, and nothing when the key addresses no flag.
pub open spec fn env_assignment_view(key: Seq<char>, value: Seq<char>) -> EnvParseV {
    if exists|nm: Seq<char>| env_override(key, Role::Source, nm) {
        let nm = choose|nm: Seq<char>| env_override(key, Role::Source, nm);
        match bool_value(value) {
            Some(b) => EnvParseV::Assign(Role::Source, nm, b),
            None => EnvParseV::Bad,
        }
    } else if exists|nm: Seq<char>| env_override(key, Role::Sink, nm) {
        let nm = choose|nm: Seq<char>| env_override(key, Role::Sink, nm);
        match bool_value(value) {
            Some(b) => EnvParseV::Assign(Role::Sink, nm, b),
            None => EnvParseV::Bad,
        }
    } else {
        EnvParseV::Skip
    }
}

/// A key decomposes around a fixed prefix and suffix in at most one way.
proof fn lemma_env_name_unique(w: Seq<char>, pre: Seq<char>, nm1: Seq<char>, nm2: Seq<char>)
    requires
        w == pre + nm1 + "__enabled"@,
        w == pre + nm2 + "__enabled"@,
    ensures
        nm1 == nm2,
{
    assert(w.len() == pre.len() + nm1.len() + "__enabled"@.len());
    assert(w.len() == pre.len() + nm2.len() + "__enabled"@.len());
    assert(nm1.len() == nm2.len());
    assert forall|i: int| 0 <= i < nm1.len() implies nm1[i] == nm2[i] by {
        assert(w[pre.len() + i] == nm1[i]);
        assert(w[pre.len() + i] == nm2[i]);
    }
    assert(nm1 =~= nm2);
}

/// If `w` is the role prefix, a well-formed name, and the `__enabled` suffix,
/// hand the name back; otherwise report that no name fits.
fn extract_name(w: &str, pre: &str) -> (r: Option<String>)
    ensures
        match r {
            Some(name) => w@ == pre@ + name@ + "__enabled"@ && name@.len() > 0
                && no_double_underscore(name@),
            None => forall|nm: Seq<char>|
                !(w@ == pre@ + nm + "__enabled"@ && nm.len() > 0 && no_double_underscore(nm)),
        },
{
    proof {
        reveal_strlit("__enabled");
    }
    let wlen = w.unicode_len();
    let plen = pre.unicode_len();
    if wlen < plen || wlen - plen < 10 {
        proof {
            assert forall|nm: Seq<char>|
                !(w@ == pre@ + nm + "__enabled"@ && nm.len() > 0 && no_double_underscore(
                    nm,
                )) by {
                if w@ == pre@ + nm + "__enabled"@ {
                    assert(w@.len() == pre@.len() + nm.len() + 9);
                }
            }
        }
        return None;
    }
    let head = w.substring_char(0, plen);
    if !str_eq(head, pre) {
        proof {
            assert forall|nm: Seq<char>|
                !(w@ == pre@ + nm + "__enabled"@ && nm.len() > 0 && no_double_underscore(
                    nm,
                )) by {
                if w@ == pre@ + nm + "__enabled"@ {
                    assert(w@.subrange(0, plen as int) =~= pre@);
                }
            }
        }
        return None;
    }
    let tail = w.substring_char(wlen - 9, wlen);
    if !str_eq(tail, "__enabled") {
        proof {
            assert forall|nm: Seq<char>|
                !(w@ == pre@ + nm + "__enabled"@ && nm.len() > 0 && no_double_underscore(
                    nm,
                )) by {
                if w@ == pre@ + nm + "__enabled"@ {
                    assert(w@.len() == pre@.len() + nm.len() + 9);
                    assert(w@.subrange(wlen - 9, wlen as int) =~= "__enabled"@);
                }
            }
        }
        return None;
    }
    let mid = w.substring_char(plen, wlen - 9);
    let midlen = wlen - 9 - plen;
    proof {
        assert(mid@.len() == midlen);
    }
    let mut k: usize = 0;
    while midlen >= 1 && k < midlen - 1
        invariant
            wlen == w@.len(),
            plen == pre@.len(),
            plen + 10 <= wlen,
            midlen == wlen - 9 - plen,
            midlen == mid@.len(),
            mid@ == w@.subrange(plen as int, (wlen - 9) as int),
            k <= midlen,
            forall|j: int| 0 <= j < k ==> !((#[trigger] mid@[j]) == '_' && mid@[j + 1] == '_'),
        decreases midlen - k,
    {
        if mid.get_char(k) == '_' && mid.get_char(k + 1) == '_' {
            proof {
                reveal_strlit("__enabled");
                assert forall|nm: Seq<char>|
                    !(w@ == pre@ + nm + "__enabled"@ && nm.len() > 0 && no_double_underscore(
                        nm,
                    )) by {
                    if w@ == pre@ + nm + "__enabled"@ {
                        assert(w@.len() == pre@.len() + nm.len() + 9);
                        assert(nm =~= mid@) by {
                            assert forall|i: int| 0 <= i < nm.len() implies nm[i] == mid@[i] by {
                                assert(w@[plen + i] == nm[i]);
                            }
                        }
                        assert(!(no_double_underscore(nm)));
                    }
                }
            }
            return None;
        }
        k = k + 1;
    }
    proof {
        assert(w@ =~= pre@ + mid@ + "__enabled"@);
        assert(no_double_underscore(mid@));
    }
    Some(mid.to_owned())
}

/// Classify one environment pair.
fn env_assignment(key: &str, value: &str) -> (r: EnvParse)
    ensures
        match r {
            EnvParse::Skip => env_assignment_view(key@, value@) is Skip,
            EnvParse::Bad => env_assignment_view(key@, value@) is Bad,
            EnvParse::Assign(a) => env_assignment_view(key@, value@) == EnvParseV::Assign(
                a.role,
                a.name@,
                a.enabled,
            ),
        },
{
    let lower = ascii_lowercase(key);
    match extract_name(lower.as_str(), "cdviz_collector__sources__") {
        Some(name) => {
            proof {
                assert(env_override(key@, Role::Source, name@));
                let nm0 = choose|nm: Seq<char>| env_override(key@, Role::Source, nm);
                lemma_env_name_unique(lower_seq(key@), env_prefix(Role::Source), nm0, name@);
            }
            if str_eq(value, "true") {
                return EnvParse::Assign(Assignment { role: Role::Source, name, enabled: true });
            } else if str_eq(value, "false") {
                return EnvParse::Assign(Assignment { role: Role::Source, name, enabled: false });
            } else {
                return EnvParse::Bad;
            }
        },
        None => {},
    }
    proof {
        assert(forall|nm: Seq<char>| !env_override(key@, Role::Source, nm));
    }
    match extract_name(lower.as_str(), "cdviz_collector__sinks__") {
        Some(name) => {
            proof {
                assert(env_override(key@, Role::Sink, name@));
                let nm0 = choose|nm: Seq<char>| env_override(key@, Role::Sink, nm);
                lemma_env_name_unique(lower_seq(key@), env_prefix(Role::Sink), nm0, name@);
            }
            if str_eq(value, "true") {
                return EnvParse::Assign(Assignment { role: Role::Sink, name, enabled: true });
            } else if str_eq(value, "false") {
                return EnvParse::Assign(Assignment { role: Role::Sink, name, enabled: false });
            } else {
                return EnvParse::Bad;
            }
        },
        None => {},
    }
    proof {
        assert(forall|nm: Seq<char>| !env_override(key@, Role::Sink, nm));
    }
    EnvParse::Skip
}

/// The assignments the whole environment layer contributes, in the order the
/// pairs are given, or `None` when a pair that addresses a flag carries a
/// non-boolean value.
pub open spec fn env_asgs(pairs: Seq<(Seq<char>, Seq<char>)>) -> Option<Seq<(Role, Seq<char>, bool)>>
    decreases pairs.len(),
{
    if pairs.len() == 0 {
        Some(Seq::empty())
    } else {
        match env_asgs(pairs.drop_last()) {
            Option::None => None,
            Option::Some(rest) => match env_assignment_view(pairs.last().0, pairs.last().1) {
                EnvParseV::Skip => Some(rest),
                EnvParseV::Bad => None,
                EnvParseV::Assign(role, nm, b) => Some(rest.push((role, nm, b))),
            },
        }
    }
}

/// The plain view of the environment pairs.
pub open spec fn pairs_view(s: Seq<(String, String)>) -> Seq<(Seq<char>, Seq<char>)> {
    s.map_values(|p: (String, String)| (p.0@, p.1@))
}

/// Once a prefix of the pairs is rejected, the whole layer is.
proof fn lemma_env_asgs_none_extends(pairs: Seq<(Seq<char>, Seq<char>)>, k: int, k2: int)
    requires
        0 <= k <= k2 <= pairs.len(),
        env_asgs(pairs.subrange(0, k)) is None,
    ensures
        env_asgs(pairs.subrange(0, k2)) is None,
    decreases k2 - k,
{
    if k2 > k {
        lemma_env_asgs_none_extends(pairs, k, k2 - 1);
        assert(pairs.subrange(0, k2).drop_last() =~= pairs.subrange(0, k2 - 1));
    }
}

/// Gather the assignments the environment contributes.
fn environment_assignments(pairs: &Vec<(String, String)>) -> (r: Option<Vec<Assignment>>)
    ensures
        match r {
            Some(v) => env_asgs(pairs_view(pairs@)) == Some(asgs_view(v@)),
            None => env_asgs(pairs_view(pairs@)) is None,
        },
{
    let n = pairs.len();
    let mut out: Vec<Assignment> = Vec::new();
    let mut i: usize = 0;
    while i < n
        invariant
            n == pairs@.len(),
            i <= n,
            env_asgs(pairs_view(pairs@).subrange(0, i as int)) == Some(asgs_view(out@)),
        decreases n - i,
    {
        proof {
            assert(pairs_view(pairs@).subrange(0, i as int + 1).drop_last() =~= pairs_view(
                pairs@,
            ).subrange(0, i as int));
            assert(pairs_view(pairs@).subrange(0, i as int + 1).last() == pairs_view(
                pairs@,
            )[i as int]);
        }
        match env_assignment(pairs[i].0.as_str(), pairs[i].1.as_str()) {
            EnvParse::Skip => {},
            EnvParse::Bad => {
                proof {
                    lemma_env_asgs_none_extends(pairs_view(pairs@), i as int + 1, n as int);
                    assert(pairs_view(pairs@).subrange(0, n as int) =~= pairs_view(pairs@));
                }
                return None;
            },
            EnvParse::Assign(a) => {
                out.push(a);
                proof {
                    assert(asgs_view(out@) =~= asgs_view(out@.drop_last()).push(
                        (a.role, a.name@, a.enabled),
                    ));
                }
            },
        }
        i = i + 1;
    }
    proof {
        assert(pairs_view(pairs@).subrange(0, n as int) =~= pairs_view(pairs@));
    }
    Some(out)
}

/// The optional explicit configuration document, as handed to the resolver:
/// its path, and its text when a file exists at that path.
pub struct ExplicitConfig {
    pub path: String,
    pub contents: Option<String>,
}

/// The plain view of the optional explicit document.
pub open spec fn explicit_view(e: Option<ExplicitConfig>) -> Option<(Seq<char>, Option<Seq<char>>)> {
    match e {
        Option::None => None,
        Option::Some(ec) => Some(
            (
                ec.path@,
                match ec.contents {
                    Option::None => None,
                    Option::Some(t) => Some(t@),
                },
            ),
        ),
    }
}

/// The outcome resolution owes, as plain values.
pub enum Resolution {
    /// The explicit path names no file; nothing was merged.
    NotFound(Seq<char>),
    /// Some layer fails to parse or to fit the schema; no partial result.
    Unparsable,
    /// The resolved source map and sink map.
    Resolved(Map<Seq<char>, bool>, Map<Seq<char>, bool>),
}

/// Layered resolution, lowest to highest precedence: the compiled-in empty
/// defaults, the baseline, the explicit document when one was given, then the
/// environment, which always wins per key. An explicit path without a file is
/// rejected before any merge; a layer that does not parse or whose `enabled`
/// flags are ill-typed rejects the whole resolution.
pub open spec fn resolution(
    explicit: Option<(Seq<char>, Option<Seq<char>>)>,
    env: Seq<(Seq<char>, Seq<char>)>,
) -> Resolution {
    match explicit {
        Option::Some((path, Option::None)) => Resolution::NotFound(path),
        _ => {
            let file_rows = match explicit {
                Option::Some((_, Option::Some(text))) => parsed_document(text),
                _ => Some(Seq::empty()),
            };
            match file_rows {
                Option::None => Resolution::Unparsable,
                Option::Some(rows) => match (doc_asgs(rows), env_asgs(env)) {
                    (Option::Some(file_s), Option::Some(easgs)) => Resolution::Resolved(
                        applied(
                            applied(
                                applied(Map::empty(), baseline_asgs(), Role::Source),
                                file_s,
                                Role::Source,
                            ),
                            easgs,
                            Role::Source,
                        ),
                        applied(
                            applied(
                                applied(Map::empty(), baseline_asgs(), Role::Sink),
                                file_s,
                                Role::Sink,
                            ),
                            easgs,
                            Role::Sink,
                        ),
                    ),
                    _ => Resolution::Unparsable,
                },
            }
        },
    }
}

/// Resolve the layered configuration: the compiled-in defaults, the baseline
/// document, the optional explicit document, then the environment pairs, each
/// higher layer overriding per key. No side effects: the caller reads the
/// file and the environment and hands both in as values.
pub fn resolve(explicit: Option<ExplicitConfig>, env: &Vec<(String, String)>) -> (r: Result<
    Config,
    Error,
>)
    ensures
        match resolution(explicit_view(explicit), pairs_view(env@)) {
            Resolution::NotFound(p) => r matches Err(Error::ConfigNotFound { path }) && path@ == p,
            Resolution::Unparsable => r matches Err(Error::ConfigParse),
            Resolution::Resolved(srcs, snks) => r matches Ok(c) && c.wf() && c.sources_map()
                == srcs && c.sinks_map() == snks,
        },
{
    let file_text: Option<String> = match explicit {
        Option::Some(e) => match e.contents {
            Option::None => {
                return Err(Error::ConfigNotFound { path: e.path });
            },
            Option::Some(t) => Some(t),
        },
        Option::None => None,
    };
    let file_rows: Vec<(String, String, String, Option<bool>)> = match file_text {
        Option::None => Vec::new(),
        Option::Some(t) => match parse_document(t.as_str()) {
            Option::None => {
                return Err(Error::ConfigParse);
            },
            Option::Some(rows) => rows,
        },
    };
    proof {
        assert(rows_view(Seq::<(String, String, String, Option<bool>)>::empty())
            =~= Seq::<(Seq<char>, Seq<char>, Seq<char>, Option<bool>)>::empty());
    }
    let file_asgs = match document_assignments(&file_rows) {
        Option::None => {
            return Err(Error::ConfigParse);
        },
        Option::Some(a) => a,
    };
    let env_layer = match environment_assignments(env) {
        Option::None => {
            return Err(Error::ConfigParse);
        },
        Option::Some(a) => a,
    };
    let base_asgs = baseline_assignments();
    let mut config = Config::default();
    apply_assignments(&mut config, &base_asgs);
    apply_assignments(&mut config, &file_asgs);
    apply_assignments(&mut config, &env_layer);
    Ok(config)
}

/// The last value the layer assigns to `name` of `role`, if any.
pub open spec fn last_value(
    asgs: Seq<(Role, Seq<char>, bool)>,
    role: Role,
    name: Seq<char>,
) -> Option<bool>
    decreases asgs.len(),
{
    if asgs.len() == 0 {
        None
    } else if asgs.last().0 == role && asgs.last().1 == name {
        Some(asgs.last().2)
    } else {
        last_value(asgs.drop_last(), role, name)
    }
}

/// Law: a layer always takes precedence over everything below it — whatever
/// the lower layers resolved to, if the layer assigns a value to a name, the
/// merged map holds the layer's last such value. Applied to the environment
/// layer, the highest: an environment override always wins over the baseline
/// and over an explicit document.
pub proof fn lemma_layer_overrides(
    m: Map<Seq<char>, bool>,
    layer: Seq<(Role, Seq<char>, bool)>,
    role: Role,
    name: Seq<char>,
    v: bool,
)
    requires
        last_value(layer, role, name) == Some(v),
    ensures
        applied(m, layer, role).contains_key(name),
        applied(m, layer, role)[name] == v,
    decreases layer.len(),
{
    if layer.len() > 0 {
        if !(layer.last().0 == role && layer.last().1 == name) {
            lemma_layer_overrides(m, layer.drop_last(), role, name, v);
        }
    }
}

/// Law: resolution with an explicit path behind which no file exists is
/// rejected as not found, whatever the environment holds: no merge is
/// attempted and no other error can take its place.
pub proof fn lemma_missing_explicit_path_rejected(
    path: Seq<char>,
    env: Seq<(Seq<char>, Seq<char>)>,
)
    ensures
        resolution(Some((path, None)), env) == Resolution::NotFound(path),
{
}

/// An environment in which no pair addresses an `enabled` flag of a source
/// or sink contributes no assignment at all.
pub proof fn lemma_unrelated_env_contributes_nothing(env: Seq<(Seq<char>, Seq<char>)>)
    requires
        forall|i: int| 0 <= i < env.len() ==> env_assignment_view(env[i].0, env[i].1) is Skip,
    ensures
        env_asgs(env) == Some(Seq::<(Role, Seq<char>, bool)>::empty()),
    decreases env.len(),
{
    if env.len() > 0 {
        lemma_unrelated_env_contributes_nothing(env.drop_last());
        assert(env_assignment_view(env.last().0, env.last().1) is Skip);
    }
}

/// Law: with no explicit document and no environment pair that addresses an
/// `enabled` flag, resolution always succeeds and yields exactly the baseline
/// applied to the compiled-in empty defaults: every adapter kind the baseline
/// defines is present with its conservative default — disabled.
pub proof fn lemma_no_explicit_yields_baseline(env: Seq<(Seq<char>, Seq<char>)>)
    requires
        forall|i: int| 0 <= i < env.len() ==> env_assignment_view(env[i].0, env[i].1) is Skip,
    ensures
        resolution(None, env) matches Resolution::Resolved(srcs, snks) && srcs == applied(
            Map::empty(),
            baseline_asgs(),
            Role::Source,
        ) && snks == applied(Map::empty(), baseline_asgs(), Role::Sink) && snks.contains_key(
            "debug"@,
        ) && snks["debug"@] == false && snks.contains_key("db"@) && snks["db"@] == false
            && srcs.contains_key("cdevents_webhook"@) && srcs["cdevents_webhook"@] == false
            && srcs.contains_key("cdevents_local_json"@) && srcs["cdevents_local_json"@] == false,
{
    lemma_unrelated_env_contributes_nothing(env);
    assert(doc_asgs(Seq::empty()) == Some(Seq::<(Role, Seq<char>, bool)>::empty()));
    let b = baseline_asgs();
    let b3 = b.drop_last();
    let b2 = b3.drop_last();
    let b1 = b2.drop_last();
    let b0 = b1.drop_last();
    assert(b0.len() == 0);
    assert(b.last() == (Role::Sink, "db"@, false));
    assert(b3.last() == (Role::Sink, "debug"@, false));
    assert(b2.last() == (Role::Source, "cdevents_local_json"@, false));
    assert(b1.last() == (Role::Source, "cdevents_webhook"@, false));
    let m = Map::<Seq<char>, bool>::empty();
    assert(applied(m, b0, Role::Sink) == m);
    assert(applied(m, b1, Role::Sink) == m);
    assert(applied(m, b2, Role::Sink) == m);
    assert(applied(m, b3, Role::Sink) == m.insert("debug"@, false));
    assert(applied(m, b, Role::Sink) == m.insert("debug"@, false).insert("db"@, false));
    assert(applied(m, b0, Role::Source) == m);
    assert(applied(m, b1, Role::Source) == m.insert("cdevents_webhook"@, false));
    assert(applied(m, b2, Role::Source) == m.insert("cdevents_webhook"@, false).insert(
        "cdevents_local_json"@,
        false,
    ));
    assert(applied(m, b3, Role::Source) == applied(m, b2, Role::Source));
    assert(applied(m, b, Role::Source) == applied(m, b2, Role::Source));
}

/// Law: an environment override decides the resolved value for its key,
/// whatever the baseline and the explicit document say.
pub proof fn lemma_environment_overrides_resolution(
    explicit: Option<(Seq<char>, Option<Seq<char>>)>,
    env: Seq<(Seq<char>, Seq<char>)>,
    role: Role,
    name: Seq<char>,
    v: bool,
)
    requires
        env_asgs(env) matches Some(easgs) && last_value(easgs, role, name) == Some(v),
        resolution(explicit, env) is Resolved,
    ensures
        resolution(explicit, env) matches Resolution::Resolved(srcs, snks) && (if role
            == Role::Source {
            srcs
        } else {
            snks
        }).contains_key(name) && (if role == Role::Source {
            srcs
        } else {
            snks
        })[name] == v,
{
    let easgs = env_asgs(env)->Some_0;
    match resolution(explicit, env) {
        Resolution::Resolved(srcs, snks) => {
            match explicit {
                Option::Some((path, Option::None)) => {},
                _ => {
                    let file_rows = match explicit {
                        Option::Some((_, Option::Some(text))) => parsed_document(text),
                        _ => Some(Seq::empty()),
                    };
                    let file_s = doc_asgs(file_rows->Some_0)->Some_0;
                    let base_s = baseline_asgs();
                    match role {
                        Role::Source => lemma_layer_overrides(
                            applied(
                                applied(Map::empty(), base_s, Role::Source),
                                file_s,
                                Role::Source,
                            ),
                            easgs,
                            Role::Source,
                            name,
                            v,
                        ),
                        Role::Sink => lemma_layer_overrides(
                            applied(applied(Map::empty(), base_s, Role::Sink), file_s, Role::Sink),
                            easgs,
                            Role::Sink,
                            name,
                            v,
                        ),
                    }
                },
            }
        },
        _ => {},
    }
}

} // verus!
