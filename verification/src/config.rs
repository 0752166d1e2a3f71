//! The layered configuration document and its resolver: a `common` section
//! plus named, dot-addressable profile sections, resolved into one flat,
//! typed run configuration by a shallow, one-level, right-wins merge.

use vstd::prelude::*;
use crate::strutil::str_eq;

verus! {

broadcast use vstd::seq::group_seq_axioms, vstd::std_specs::vec::group_vec_axioms;

/// One value of a configuration document: a scalar or a nested table.
#[derive(Debug, PartialEq)]
pub enum ConfigValue {
    Str(String),
    Int(i64),
    Bool(bool),
    Table(ConfigTree),
}

/// One key-value binding of a table.
#[derive(Debug, PartialEq)]
pub struct ConfigEntry {
    pub key: String,
    pub val: ConfigValue,
}

/// An in-memory configuration document: an ordered mapping from keys to
/// values, with unique keys (see [`tree_wf`]).
#[derive(Debug, PartialEq)]
pub struct ConfigTree {
    pub entries: Vec<ConfigEntry>,
}

/// The mathematical reading of a configuration value: tables become maps
/// from key characters to values.
pub enum CfgValue {
    Str(Seq<char>),
    Int(int),
    Bool(bool),
    Table(Map<Seq<char>, CfgValue>),
}

/// The mathematical reading of a value.
pub open spec fn value_view(v: ConfigValue) -> CfgValue
    decreases v,
{
    match v {
        ConfigValue::Str(s) => CfgValue::Str(s@),
        ConfigValue::Int(i) => CfgValue::Int(i as int),
        ConfigValue::Bool(b) => CfgValue::Bool(b),
        ConfigValue::Table(t) => CfgValue::Table(tree_view(t)),
    }
}

/// The mathematical reading of a tree: its entries as a map, later
/// bindings winning.
pub open spec fn tree_view(t: ConfigTree) -> Map<Seq<char>, CfgValue>
    decreases t,
{
    entries_view(t.entries@)
}

/// The map a sequence of bindings denotes.
pub open spec fn entries_view(s: Seq<ConfigEntry>) -> Map<Seq<char>, CfgValue>
    decreases s,
{
    if s.len() == 0 {
        Map::empty()
    } else {
        entries_view(s.drop_last()).insert(s.last().key@, value_view(s.last().val))
    }
}

/// No two bindings of one table share a key.
pub open spec fn entries_unique(s: Seq<ConfigEntry>) -> bool {
    forall|i: int, j: int| 0 <= i < j < s.len() ==> s[i].key@ != s[j].key@
}

/// A value is well formed when every table in it has unique keys.
pub open spec fn value_wf(v: ConfigValue) -> bool
    decreases v,
{
    match v {
        ConfigValue::Table(t) => tree_wf(t),
        _ => true,
    }
}

/// A tree is well formed when its keys are unique and its values are well
/// formed, recursively.
pub open spec fn tree_wf(t: ConfigTree) -> bool
    decreases t,
{
    entries_wf(t.entries@)
}

/// Well-formedness of a sequence of bindings.
pub open spec fn entries_wf(s: Seq<ConfigEntry>) -> bool
    decreases s,
{
    entries_unique(s) && (forall|i: int| 0 <= i < s.len() ==> value_wf(#[trigger] s[i].val))
}

/// With unique keys, the map a binding sequence denotes holds exactly the
/// bound keys, each at its bound value.
pub proof fn lemma_entries_view_get(s: Seq<ConfigEntry>, k: Seq<char>)
    requires
        entries_unique(s),
    ensures
        entries_view(s).contains_key(k) <==> exists|i: int| 0 <= i < s.len() && s[i].key@ == k,
        forall|i: int|
            0 <= i < s.len() && s[i].key@ == k ==> entries_view(s)[k] == value_view(
                #[trigger] s[i].val,
            ),
    decreases s.len(),
{
    if s.len() > 0 {
        lemma_entries_view_get(s.drop_last(), k);
        let n = s.len() - 1;
        if s[n].key@ == k {
            assert(entries_view(s)[k] == value_view(s[n].val));
        } else {
            if entries_view(s).contains_key(k) {
                let i = choose|i: int| 0 <= i < s.drop_last().len() && s.drop_last()[i].key@ == k;
                assert(s[i].key@ == k);
            }
            if exists|i: int| 0 <= i < s.len() && s[i].key@ == k {
                let i = choose|i: int| 0 <= i < s.len() && s[i].key@ == k;
                assert(s.drop_last()[i].key@ == k);
            }
        }
        assert(forall|i: int| 0 <= i < n ==> s.drop_last()[i] == s[i]);
    }
}

impl ConfigTree {
    /// An empty document.
    pub fn new() -> (t: ConfigTree)
        ensures
            tree_wf(t),
            tree_view(t) == Map::<Seq<char>, CfgValue>::empty(),
    {
        ConfigTree { entries: Vec::new() }
    }

    /// Look a key up in this table. With unique keys, the answer is the
    /// table's map at that key.
    pub fn get<'a>(&'a self, key: &str) -> (r: Option<&'a ConfigValue>)
        requires
            tree_wf(*self),
        ensures
            match r {
                Some(v) => tree_view(*self).contains_key(key@) && value_view(*v) == tree_view(
                    *self,
                )[key@] && value_wf(*v),
                None => !tree_view(*self).contains_key(key@),
            },
    {
        proof {
            lemma_entries_view_get(self.entries@, key@);
        }
        let n = self.entries.len();
        let mut i: usize = 0;
        while i < n
            invariant
                n == self.entries@.len(),
                0 <= i <= n,
                entries_wf(self.entries@),
                forall|j: int| 0 <= j < i ==> self.entries@[j].key@ != key@,
            decreases n - i,
        {
            let e = &self.entries[i];
            if str_eq(e.key.as_str(), key) {
                proof {
                    lemma_entries_view_get(self.entries@, key@);
                }
                return Some(&e.val);
            }
            i = i + 1;
        }
        None
    }

    /// Bind `key` to `val`, replacing any existing binding in place: the
    /// table's map gains exactly that binding.
    pub fn insert(&mut self, key: String, val: ConfigValue)
        requires
            tree_wf(*old(self)),
            value_wf(val),
        ensures
            tree_wf(*final(self)),
            tree_view(*final(self)) == tree_view(*old(self)).insert(key@, value_view(val)),
    {
        let ghost k0 = key@;
        let n = self.entries.len();
        let mut i: usize = 0;
        while i < n
            invariant
                n == self.entries@.len(),
                0 <= i <= n,
                self.entries@ == old(self).entries@,
                entries_wf(self.entries@),
                key@ == k0,
                value_wf(val),
                forall|j: int| 0 <= j < i ==> self.entries@[j].key@ != key@,
            decreases n - i,
        {
            let found = str_eq(self.entries[i].key.as_str(), key.as_str());
            if found {
                let ghost before = self.entries@;
                let ghost newe = ConfigEntry { key, val };
                self.entries.remove(i);
                self.entries.insert(i, ConfigEntry { key, val });
                proof {
                    assert(self.entries@ =~= before.update(i as int, newe));
                    lemma_entries_view_update(before, i as int, newe);
                }
                return ;
            }
            i = i + 1;
        }
        let ghost before = self.entries@;
        let ghost newe = ConfigEntry { key, val };
        self.entries.push(ConfigEntry { key, val });
        proof {
            assert(self.entries@.drop_last() =~= before);
            assert(self.entries@.last() == newe);
        }
    }
}

/// Replacing the binding at one index, key kept, updates the denoted map at
/// that key alone.
pub proof fn lemma_entries_view_update(s: Seq<ConfigEntry>, i: int, e: ConfigEntry)
    requires
        entries_wf(s),
        0 <= i < s.len(),
        s[i].key@ == e.key@,
        value_wf(e.val),
    ensures
        entries_wf(s.update(i, e)),
        entries_view(s.update(i, e)) == entries_view(s).insert(e.key@, value_view(e.val)),
    decreases s.len(),
{
    let su = s.update(i, e);
    assert(entries_unique(su)) by {
        assert(forall|j: int| 0 <= j < s.len() && j != i ==> su[j] == s[j]);
    }
    if i == s.len() - 1 {
        assert(su.drop_last() =~= s.drop_last());
        assert(su.last() == e);
    } else {
        lemma_entries_view_update(s.drop_last(), i, e);
        assert(su.drop_last() =~= s.drop_last().update(i, e));
        assert(su.last() == s.last());
        // The two inserts commute because the keys differ.
        assert(entries_view(su) =~= entries_view(s).insert(e.key@, value_view(e.val)));
    }
}

/// What merging two configuration values means: two tables merge shallowly,
/// the right side winning key by key; in every other pairing the overlay
/// replaces the base in full.
pub open spec fn spec_merge(b: CfgValue, o: CfgValue) -> CfgValue {
    match (b, o) {
        (CfgValue::Table(mb), CfgValue::Table(mo)) => CfgValue::Table(mb.union_prefer_right(mo)),
        (_, o2) => o2,
    }
}

/// A binding absent from a sequence can be prepended to it: the denoted map
/// gains exactly that binding.
proof fn lemma_entries_view_prepend(e: ConfigEntry, s: Seq<ConfigEntry>)
    requires
        forall|i: int| 0 <= i < s.len() ==> s[i].key@ != e.key@,
    ensures
        entries_view(seq![e] + s) == entries_view(s).insert(e.key@, value_view(e.val)),
    decreases s.len(),
{
    let c = seq![e] + s;
    if s.len() == 0 {
        assert(c.drop_last() =~= Seq::<ConfigEntry>::empty());
        assert(c.last() == e);
        assert(entries_view(c) == entries_view(c.drop_last()).insert(
            c.last().key@,
            value_view(c.last().val),
        ));
        assert(entries_view(Seq::<ConfigEntry>::empty()) == Map::<Seq<char>, CfgValue>::empty());
        assert(entries_view(c) =~= entries_view(s).insert(e.key@, value_view(e.val)));
    } else {
        assert(forall|i: int| 0 <= i < s.drop_last().len() ==> s.drop_last()[i].key@ != e.key@);
        lemma_entries_view_prepend(e, s.drop_last());
        assert(c.drop_last() =~= seq![e] + s.drop_last());
        assert(c.last() == s.last());
        assert(s[s.len() - 1].key@ != e.key@);
        assert(entries_view(c) == entries_view(seq![e] + s.drop_last()).insert(
            s.last().key@,
            value_view(s.last().val),
        ));
        assert(entries_view(s) == entries_view(s.drop_last()).insert(
            s.last().key@,
            value_view(s.last().val),
        ));
        // The two inserts commute because the keys differ.
        assert(entries_view(c) =~= entries_view(s).insert(e.key@, value_view(e.val)));
    }
}

/// Merge two configuration values: the shallow, one-level, right-wins merge.
/// For every key present in the overlay table, the overlay's value replaces
/// the base's in full; keys only in the base survive unchanged. A non-table
/// on either side makes the overlay the whole result.
pub fn merge_tables(base: ConfigValue, overlay: ConfigValue) -> (r: ConfigValue)
    requires
        value_wf(base),
        value_wf(overlay),
    ensures
        value_wf(r),
        value_view(r) == spec_merge(value_view(base), value_view(overlay)),
{
    match (base, overlay) {
        (ConfigValue::Table(mut tb), ConfigValue::Table(mut to)) => {
            let ghost b0 = tree_view(tb);
            let ghost o0 = to.entries@;
            proof {
                assert(to.entries@ =~= o0.take(to.entries@.len() as int));
                assert(o0.skip(o0.len() as int) =~= Seq::<ConfigEntry>::empty());
                assert(tree_view(tb) =~= b0.union_prefer_right(
                    entries_view(o0.skip(o0.len() as int)),
                ));
            }
            while to.entries.len() > 0
                invariant
                    tree_wf(tb),
                    entries_wf(o0),
                    to.entries@.len() <= o0.len(),
                    to.entries@ == o0.take(to.entries@.len() as int),
                    tree_view(tb) == b0.union_prefer_right(
                        entries_view(o0.skip(to.entries@.len() as int)),
                    ),
                decreases to.entries@.len(),
            {
                let ghost j = to.entries@.len() as int;
                let e = to.entries.pop().unwrap();
                proof {
                    assert(e == o0[j - 1]);
                    assert(to.entries@ =~= o0.take(j - 1));
                    assert(entries_wf(o0.take(j)));
                    assert(value_wf(e.val)) by {
                        assert(o0.take(j)[j - 1] == e);
                    }
                }
                let ghost key_view = e.key@;
                let ghost val_view_g = value_view(e.val);
                tb.insert(e.key, e.val);
                proof {
                    assert(o0.skip(j - 1) =~= seq![o0[j - 1]] + o0.skip(j));
                    assert(forall|i: int|
                        0 <= i < o0.skip(j).len() ==> o0.skip(j)[i].key@ != o0[j - 1].key@);
                    lemma_entries_view_prepend(o0[j - 1], o0.skip(j));
                    assert(tree_view(tb) =~= b0.union_prefer_right(
                        entries_view(o0.skip(j - 1)),
                    ));
                }
            }
            proof {
                assert(o0.skip(0) =~= o0);
            }
            ConfigValue::Table(tb)
        },
        (_, o) => o,
    }
}

/// Walk a dot-separated profile path through nested tables, one character
/// at a time: `seg` is the segment read so far, `rest` the characters still
/// to read. A dot looks the finished segment up and descends; the last
/// segment's value is the answer. Any missing segment, or a scalar met
/// mid-path, is a miss.
pub open spec fn spec_walk(
    m: Map<Seq<char>, CfgValue>,
    seg: Seq<char>,
    rest: Seq<char>,
) -> Option<CfgValue>
    decreases rest.len(),
{
    if rest.len() == 0 {
        if m.contains_key(seg) {
            Some(m[seg])
        } else {
            None
        }
    } else if rest[0] == '.' {
        if m.contains_key(seg) {
            match m[seg] {
                CfgValue::Table(m2) => spec_walk(m2, Seq::empty(), rest.drop_first()),
                _ => None,
            }
        } else {
            None
        }
    } else {
        spec_walk(m, seg.push(rest[0]), rest.drop_first())
    }
}

/// What looking a whole profile path up in a document means.
pub open spec fn spec_profile_lookup(
    m: Map<Seq<char>, CfgValue>,
    path: Seq<char>,
) -> Option<CfgValue> {
    spec_walk(m, Seq::empty(), path)
}

/// Resolve a dot-separated profile path against the document: split on `.`,
/// walk the nested tables from the root, and hand back the value at the
/// path's end, or nothing if any segment is missing.
pub fn profile_lookup<'a>(tree: &'a ConfigTree, path: &str) -> (r: Option<&'a ConfigValue>)
    requires
        tree_wf(*tree),
    ensures
        match r {
            Some(v) => spec_profile_lookup(tree_view(*tree), path@) == Some(value_view(*v))
                && value_wf(*v),
            None => spec_profile_lookup(tree_view(*tree), path@) is None,
        },
{
    let n = path.unicode_len();
    let mut cur: &'a ConfigTree = tree;
    let mut seg_start: usize = 0;
    let mut i: usize = 0;
    proof {
        assert(path@.subrange(0, 0) =~= Seq::<char>::empty());
        assert(path@.skip(0) =~= path@);
    }
    while i < n
        invariant
            n == path@.len(),
            0 <= seg_start <= i <= n,
            tree_wf(*cur),
            forall|j: int| seg_start <= j < i ==> path@[j] != '.',
            spec_profile_lookup(tree_view(*tree), path@) == spec_walk(
                tree_view(*cur),
                path@.subrange(seg_start as int, i as int),
                path@.skip(i as int),
            ),
        decreases n - i,
    {
        let c = path.get_char(i);
        if c == '.' {
            let seg = path.substring_char(seg_start, i);
            let ghost m = tree_view(*cur);
            let ghost segv = path@.subrange(seg_start as int, i as int);
            proof {
                assert(path@.skip(i as int)[0] == '.');
                assert(path@.skip(i as int).drop_first() =~= path@.skip(i + 1));
            }
            match cur.get(seg) {
                Some(ConfigValue::Table(t2)) => {
                    proof {
                        assert(value_view(ConfigValue::Table(*t2)) == CfgValue::Table(
                            tree_view(*t2),
                        ));
                        assert(path@.subrange(i + 1, i + 1) =~= Seq::<char>::empty());
                    }
                    cur = t2;
                    seg_start = i + 1;
                },
                Some(_) => {
                    return None;
                },
                None => {
                    return None;
                },
            }
        } else {
            proof {
                assert(path@.skip(i as int)[0] == path@[i as int]);
                assert(path@.skip(i as int).drop_first() =~= path@.skip(i + 1));
                assert(path@.subrange(seg_start as int, i + 1) =~= path@.subrange(
                    seg_start as int,
                    i as int,
                ).push(path@[i as int]));
            }
        }
        i = i + 1;
    }
    proof {
        assert(path@.skip(n as int) =~= Seq::<char>::empty());
    }
    let seg = path.substring_char(seg_start, n);
    cur.get(seg)
}

/// How outbound records pick a partition: by key affinity, or load-balanced
/// with no key at all.
#[derive(Debug, Clone, Copy, PartialEq, Eq, Structural)]
pub enum PartitioningMode {
    Keyed,
    RoundRobin,
}

/// The documented fallback partitioning mode, applied when a profile does
/// not set one. The default changes observable publish behaviour, so it is
/// this one explicit function rather than an implicit choice.
pub fn default_partitioning_mode() -> (m: PartitioningMode)
    ensures
        m == PartitioningMode::Keyed,
{
    PartitioningMode::Keyed
}

/// The flattened, typed result of resolving one profile.
#[derive(Debug, PartialEq)]
pub struct AppConfig {
    pub bootstrap_servers: String,
    pub topic: String,
    pub group_id: Option<String>,
    pub compression: Option<String>,
    pub message_timeout_ms: Option<u64>,
    pub auto_offset_reset: String,
    pub enable_auto_commit: bool,
    pub enable_auto_offset_store: Option<bool>,
    pub partitioning: PartitioningMode,
}

/// Why resolution failed: the profile path missed, or a required field is
/// missing or mistyped. Both are fatal to the calling program.
#[derive(Debug, Clone, Copy, PartialEq, Eq, Structural)]
pub enum ConfigError {
    ProfileNotFound,
    InvalidConfig,
}

/// The offset-store flag, which the manual-commit consumers require: its
/// absence is a fatal misconfiguration, never a silent default.
pub fn require_auto_offset_store(cfg: &AppConfig) -> (r: Result<bool, ConfigError>)
    ensures
        match cfg.enable_auto_offset_store {
            Some(v) => r == Ok::<bool, ConfigError>(v),
            None => r == Err::<bool, ConfigError>(ConfigError::InvalidConfig),
        },
{
    match cfg.enable_auto_offset_store {
        Some(v) => Ok(v),
        None => Err(ConfigError::InvalidConfig),
    }
}

/// The base layer of every profile: the document's `common` table, or an
/// empty one where `common` is absent or not a table.
pub open spec fn spec_common_map(m: Map<Seq<char>, CfgValue>) -> Map<Seq<char>, CfgValue> {
    if m.contains_key("common"@) {
        match m["common"@] {
            CfgValue::Table(c) => c,
            _ => Map::empty(),
        }
    } else {
        Map::empty()
    }
}

/// The flat mapping a profile path resolves to: the profile's table merged
/// over `common`, right wins. Nothing when the path misses or when it names
/// a scalar, which has no fields to read.
pub open spec fn spec_resolved_map(m: Map<Seq<char>, CfgValue>, path: Seq<char>) -> Option<
    Map<Seq<char>, CfgValue>,
> {
    match spec_profile_lookup(m, path) {
        Some(CfgValue::Table(p)) => Some(spec_common_map(m).union_prefer_right(p)),
        _ => None,
    }
}

/// A merged mapping holds everything a run configuration requires: the four
/// required fields present and typed, the optional fields typed when
/// present, and `partitioning`, when present, one of its two spellings.
pub open spec fn config_valid(m: Map<Seq<char>, CfgValue>) -> bool {
    &&& m.contains_key("bootstrap_servers"@) && m["bootstrap_servers"@] is Str
    &&& m.contains_key("topic"@) && m["topic"@] is Str
    &&& m.contains_key("auto_offset_reset"@) && m["auto_offset_reset"@] is Str
    &&& m.contains_key("enable_auto_commit"@) && m["enable_auto_commit"@] is Bool
    &&& m.contains_key("group_id"@) ==> m["group_id"@] is Str
    &&& m.contains_key("compression"@) ==> m["compression"@] is Str
    &&& m.contains_key("message_timeout_ms"@) ==> (m["message_timeout_ms"@] matches CfgValue::Int(
        i,
    ) && 0 <= i)
    &&& m.contains_key("enable_auto_offset_store"@) ==> m["enable_auto_offset_store"@] is Bool
    &&& m.contains_key("partitioning"@) ==> (m["partitioning"@] == CfgValue::Str("keyed"@)
        || m["partitioning"@] == CfgValue::Str("round_robin"@))
}

/// The partitioning mode a valid merged mapping selects: `keyed` or absent
/// mean key affinity, `round_robin` means no key.
pub open spec fn spec_partitioning(m: Map<Seq<char>, CfgValue>) -> PartitioningMode {
    if !m.contains_key("partitioning"@) {
        PartitioningMode::Keyed
    } else if m["partitioning"@] == CfgValue::Str("keyed"@) {
        PartitioningMode::Keyed
    } else {
        PartitioningMode::RoundRobin
    }
}

/// The run configuration reads its merged mapping faithfully, field by
/// field: required fields copied, optional fields present exactly when the
/// mapping binds them, and the partitioning default applied.
pub open spec fn config_matches(c: AppConfig, m: Map<Seq<char>, CfgValue>) -> bool {
    &&& m["bootstrap_servers"@] matches CfgValue::Str(s) && c.bootstrap_servers@ == s
    &&& m["topic"@] matches CfgValue::Str(s) && c.topic@ == s
    &&& m["auto_offset_reset"@] matches CfgValue::Str(s) && c.auto_offset_reset@ == s
    &&& m["enable_auto_commit"@] matches CfgValue::Bool(b) && c.enable_auto_commit == b
    &&& if m.contains_key("group_id"@) {
        c.group_id matches Some(g) && m["group_id"@] matches CfgValue::Str(s) && g@ == s
    } else {
        c.group_id is None
    }
    &&& if m.contains_key("compression"@) {
        c.compression matches Some(g) && m["compression"@] matches CfgValue::Str(s) && g@ == s
    } else {
        c.compression is None
    }
    &&& if m.contains_key("message_timeout_ms"@) {
        c.message_timeout_ms matches Some(t) && m["message_timeout_ms"@] matches CfgValue::Int(i)
            && t as int == i
    } else {
        c.message_timeout_ms is None
    }
    &&& if m.contains_key("enable_auto_offset_store"@) {
        c.enable_auto_offset_store matches Some(v) && m["enable_auto_offset_store"@] matches
            CfgValue::Bool(b) && v == b
    } else {
        c.enable_auto_offset_store is None
    }
    &&& c.partitioning == spec_partitioning(m)
}

/// The base layer as a map, for stating what field lookups see.
pub open spec fn opt_tree_view(base: Option<&ConfigTree>) -> Map<Seq<char>, CfgValue> {
    match base {
        Some(b) => tree_view(*b),
        None => Map::empty(),
    }
}

/// Look one field up in the merged mapping without materialising the merge:
/// the overlay wins, the base answers otherwise.
fn merged_get<'a>(base: Option<&'a ConfigTree>, overlay: &'a ConfigTree, key: &str) -> (r: Option<
    &'a ConfigValue,
>)
    requires
        base matches Some(b) ==> tree_wf(*b),
        tree_wf(*overlay),
    ensures
        ({
            let m = opt_tree_view(base).union_prefer_right(tree_view(*overlay));
            match r {
                Some(v) => m.contains_key(key@) && value_view(*v) == m[key@],
                None => !m.contains_key(key@),
            }
        }),
{
    match overlay.get(key) {
        Some(v) => Some(v),
        None => match base {
            Some(b) => b.get(key),
            None => None,
        },
    }
}

/// RIGHT-WINS, SHALLOW. The mapping a found profile resolves against
/// answers every key from the profile's own table when the profile binds
/// it, and from `common` otherwise; keys bound by neither are absent. The
/// merge is one level deep: a key the profile binds is taken whole, never
/// merged recursively.
pub proof fn lemma_resolved_right_wins(t: Map<Seq<char>, CfgValue>, path: Seq<char>, k: Seq<char>)
    requires
        spec_profile_lookup(t, path) matches Some(v) && v is Table,
    ensures
        match (spec_profile_lookup(t, path), spec_resolved_map(t, path)) {
            (Some(CfgValue::Table(p)), Some(m)) => {
                &&& (m.contains_key(k) <==> (p.contains_key(k) || spec_common_map(t).contains_key(
                    k,
                )))
                &&& p.contains_key(k) ==> m[k] == p[k]
                &&& (!p.contains_key(k) && spec_common_map(t).contains_key(k)) ==> m[k]
                    == spec_common_map(t)[k]
            },
            _ => false,
        },
{
}

/// Resolve a profile path against the document into one run configuration.
///
/// The path is split on `.` and walked from the root; a missing segment is
/// `ProfileNotFound` — never a silent fall-back to `common` alone. The found
/// profile is merged over `common`, shallowly and right-wins, and the merged
/// mapping is read into an [`AppConfig`]; a missing or mistyped required
/// field, or a profile that is not a table, is `InvalidConfig`.
pub fn resolve(tree: &ConfigTree, profile_path: &str) -> (r: Result<AppConfig, ConfigError>)
    requires
        tree_wf(*tree),
    ensures
        match r {
            Ok(c) => (match spec_resolved_map(tree_view(*tree), profile_path@) {
                Some(m) => config_valid(m) && config_matches(c, m),
                None => false,
            }),
            Err(e) => if e == ConfigError::ProfileNotFound {
                spec_profile_lookup(tree_view(*tree), profile_path@) is None
            } else {
                spec_profile_lookup(tree_view(*tree), profile_path@) is Some && (
                match spec_resolved_map(tree_view(*tree), profile_path@) {
                    Some(m) => !config_valid(m),
                    None => true,
                })
            },
        },
{
    let pv = match profile_lookup(tree, profile_path) {
        None => {
            return Err(ConfigError::ProfileNotFound);
        },
        Some(v) => v,
    };
    let pt: &ConfigTree = match pv {
        ConfigValue::Table(t) => t,
        _ => {
            return Err(ConfigError::InvalidConfig);
        },
    };
    let base: Option<&ConfigTree> = match tree.get("common") {
        Some(ConfigValue::Table(ct)) => Some(ct),
        _ => None,
    };
    let ghost m = opt_tree_view(base).union_prefer_right(tree_view(*pt));
    proof {
        assert(spec_common_map(tree_view(*tree)) == opt_tree_view(base));
        assert(spec_resolved_map(tree_view(*tree), profile_path@) == Some(m));
    }
    let bootstrap_servers = match merged_get(base, pt, "bootstrap_servers") {
        Some(ConfigValue::Str(s)) => s.clone(),
        _ => {
            return Err(ConfigError::InvalidConfig);
        },
    };
    let topic = match merged_get(base, pt, "topic") {
        Some(ConfigValue::Str(s)) => s.clone(),
        _ => {
            return Err(ConfigError::InvalidConfig);
        },
    };
    let auto_offset_reset = match merged_get(base, pt, "auto_offset_reset") {
        Some(ConfigValue::Str(s)) => s.clone(),
        _ => {
            return Err(ConfigError::InvalidConfig);
        },
    };
    let enable_auto_commit = match merged_get(base, pt, "enable_auto_commit") {
        Some(ConfigValue::Bool(b)) => *b,
        _ => {
            return Err(ConfigError::InvalidConfig);
        },
    };
    let group_id = match merged_get(base, pt, "group_id") {
        None => None,
        Some(ConfigValue::Str(s)) => Some(s.clone()),
        Some(_) => {
            return Err(ConfigError::InvalidConfig);
        },
    };
    let compression = match merged_get(base, pt, "compression") {
        None => None,
        Some(ConfigValue::Str(s)) => Some(s.clone()),
        Some(_) => {
            return Err(ConfigError::InvalidConfig);
        },
    };
    let message_timeout_ms = match merged_get(base, pt, "message_timeout_ms") {
        None => None,
        Some(ConfigValue::Int(i)) => if *i >= 0 {
            Some(*i as u64)
        } else {
            return Err(ConfigError::InvalidConfig);
        },
        Some(_) => {
            return Err(ConfigError::InvalidConfig);
        },
    };
    let enable_auto_offset_store = match merged_get(base, pt, "enable_auto_offset_store") {
        None => None,
        Some(ConfigValue::Bool(b)) => Some(*b),
        Some(_) => {
            return Err(ConfigError::InvalidConfig);
        },
    };
    let partitioning = match merged_get(base, pt, "partitioning") {
        None => default_partitioning_mode(),
        Some(ConfigValue::Str(s)) => {
            proof {
                reveal_strlit("keyed");
                reveal_strlit("round_robin");
            }
            if crate::strutil::str_eq(s.as_str(), "keyed") {
                PartitioningMode::Keyed
            } else if crate::strutil::str_eq(s.as_str(), "round_robin") {
                PartitioningMode::RoundRobin
            } else {
                return Err(ConfigError::InvalidConfig);
            }
        },
        Some(_) => {
            return Err(ConfigError::InvalidConfig);
        },
    };
    Ok(
        AppConfig {
            bootstrap_servers,
            topic,
            group_id,
            compression,
            message_timeout_ms,
            auto_offset_reset,
            enable_auto_commit,
            enable_auto_offset_store,
            partitioning,
        },
    )
}

} // verus!
