//! Target configuration: immediate printing style, session options and the
//! feature toggle policy (last toggle for a name wins).
use vstd::prelude::*;
use vstd::string::*;

verus! {

/// Configuration options for the integer style of immediates in disassembly output.
#[derive(PartialEq, Eq, Structural, Clone, Copy, Debug)]
pub enum IntegerBase {
    /// Immediates are represented in decimal format.
    Dec,
    /// Immediates are represented in hex format, prepended with 0x, for example: 0xff.
    HexPrefix,
    /// Immediates are represented in hex format, suffixed with h, for example: 0ffh.
    HexSuffix,
}

impl Default for IntegerBase {
    fn default() -> (r: IntegerBase)
        ensures
            r == IntegerBase::Dec,
    {
        IntegerBase::Dec
    }
}

/// Initialization configuration for a session.
#[derive(Debug)]
pub struct NyxstoneConfig<'a, 'b> {
    /// The cpu identifier, empty for no specific cpu target.
    pub cpu: &'a str,
    /// A feature string: comma separated names, prepended with '+' when enabled and '-' if disabled.
    pub features: &'b str,
    /// The printing style of immediates.
    pub immediate_style: IntegerBase,
}

impl<'a, 'b> Default for NyxstoneConfig<'a, 'b> {
    fn default() -> (r: NyxstoneConfig<'a, 'b>)
        ensures
            r.cpu@ == Seq::<char>::empty(),
            r.features@ == Seq::<char>::empty(),
            r.immediate_style == IntegerBase::Dec,
    {
        proof {
            reveal_strlit("");
        }
        NyxstoneConfig { cpu: "", features: "", immediate_style: IntegerBase::Dec }
    }
}


/// Why a target configuration was refused.
#[derive(Clone, Debug, PartialEq, Eq)]
pub enum ConfigError {
    /// No target triple was given.
    EmptyTriple,
    /// The backend refused the triple, cpu or a feature; its diagnostic.
    InvalidTarget(String),
    /// A feature string entry is not `+name` or `-name`.
    MalformedFeature,
}

/// Checks what a target triple needs before the backend sees it: it must not be empty.
pub fn check_triple(triple: &str) -> (r: Result<(), ConfigError>)
    ensures
        triple@.len() > 0 ==> r is Ok,
        triple@.len() == 0 ==> r == Err::<(), ConfigError>(ConfigError::EmptyTriple),
{
    if triple.is_empty() {
        Err(ConfigError::EmptyTriple)
    } else {
        Ok(())
    }
}

/// One feature toggle: a feature name and whether it is enabled.
#[derive(Debug)]
pub struct Feature {
    pub name: String,
    pub enabled: bool,
}

/// Whether some entry of `s` carries the name `name`.
pub open spec fn has_feature(s: Seq<(Seq<char>, bool)>, name: Seq<char>) -> bool {
    exists|i: int| 0 <= i < s.len() && #[trigger] s[i].0 == name
}

/// No name occurs twice in `s`.
pub open spec fn names_distinct(s: Seq<(Seq<char>, bool)>) -> bool {
    forall|i: int, j: int| 0 <= i < s.len() && 0 <= j < s.len() && i != j ==> s[i].0 != s[j].0
}

/// The toggle list after setting `name` to `enabled`: an existing entry of that
/// name is overwritten in place, otherwise a new entry is appended.
pub open spec fn toggled(s: Seq<(Seq<char>, bool)>, name: Seq<char>, enabled: bool) -> Seq<(Seq<char>, bool)> {
    if has_feature(s, name) {
        s.map_values(|e: (Seq<char>, bool)| if e.0 == name { (name, enabled) } else { e })
    } else {
        s.push((name, enabled))
    }
}

/// The state of each named feature.
pub open spec fn feature_map(s: Seq<(Seq<char>, bool)>) -> Map<Seq<char>, bool>
    decreases s.len(),
{
    if s.len() == 0 {
        Map::empty()
    } else {
        feature_map(s.drop_last()).insert(s.last().0, s.last().1)
    }
}

/// The textual form of one toggle: `+name` or `-name`.
pub open spec fn toggle_text(e: (Seq<char>, bool)) -> Seq<char> {
    (if e.1 { seq!['+'] } else { seq!['-'] }) + e.0
}

/// The comma-joined textual form of a toggle list.
pub open spec fn feature_string(s: Seq<(Seq<char>, bool)>) -> Seq<char>
    decreases s.len(),
{
    if s.len() == 0 {
        Seq::empty()
    } else if s.len() == 1 {
        toggle_text(s[0])
    } else {
        feature_string(s.drop_last()) + seq![','] + toggle_text(s.last())
    }
}

/// Toggling keeps names distinct.
pub proof fn lemma_toggled_distinct(s: Seq<(Seq<char>, bool)>, name: Seq<char>, enabled: bool)
    requires
        names_distinct(s),
    ensures
        names_distinct(toggled(s, name, enabled)),
        has_feature(toggled(s, name, enabled), name),
{
    let t = toggled(s, name, enabled);
    if has_feature(s, name) {
        let i = choose|i: int| 0 <= i < s.len() && #[trigger] s[i].0 == name;
        assert(t[i].0 == name);
        assert forall|a: int, b: int| 0 <= a < t.len() && 0 <= b < t.len() && a != b implies t[a].0 != t[b].0 by {
            assert(s[a].0 != s[b].0);
        }
    } else {
        assert(t[s.len() as int].0 == name);
        assert forall|a: int, b: int| 0 <= a < t.len() && 0 <= b < t.len() && a != b implies t[a].0 != t[b].0 by {
            if a < s.len() && b < s.len() {
                assert(s[a].0 != s[b].0);
            } else if a < s.len() {
                assert(s[a].0 != name);
            } else {
                assert(s[b].0 != name);
            }
        }
    }
}

/// The last toggle of a name decides its state: toggling a name twice
/// leaves the same list as the second toggle alone.
pub proof fn lemma_last_toggle_wins(s: Seq<(Seq<char>, bool)>, name: Seq<char>, first: bool, second: bool)
    requires
        names_distinct(s),
    ensures
        toggled(toggled(s, name, first), name, second) == toggled(s, name, second),
{
    let t = toggled(s, name, first);
    lemma_toggled_distinct(s, name, first);
    assert(has_feature(t, name));
    let u = toggled(t, name, second);
    if has_feature(s, name) {
        assert(u =~= toggled(s, name, second));
    } else {
        assert(u =~= s.push((name, second))) by {
            assert forall|k: int| 0 <= k < s.len() implies #[trigger] u[k] == s[k] by {
                assert(s[k].0 != name);
            }
        }
    }
}

/// Toggling a name sets its state in the feature map and leaves every other
/// name as it was.
pub proof fn lemma_toggled_map(s: Seq<(Seq<char>, bool)>, name: Seq<char>, enabled: bool)
    requires
        names_distinct(s),
    ensures
        feature_map(toggled(s, name, enabled)) == feature_map(s).insert(name, enabled),
    decreases s.len(),
{
    let t = toggled(s, name, enabled);
    if has_feature(s, name) {
        let d = s.drop_last();
        if s.last().0 == name {
            assert forall|k: int| 0 <= k < d.len() implies d[k].0 != name by {
                assert(s[k].0 != s[s.len() - 1].0);
            }
            assert(!has_feature(d, name));
            assert(t.drop_last() =~= d);
            assert(feature_map(t) =~= feature_map(s).insert(name, enabled));
        } else {
            let i = choose|i: int| 0 <= i < s.len() && #[trigger] s[i].0 == name;
            assert(d[i].0 == name);
            assert(has_feature(d, name));
            assert(t.drop_last() =~= toggled(d, name, enabled));
            lemma_toggled_map(d, name, enabled);
            assert(feature_map(t) =~= feature_map(s).insert(name, enabled));
        }
    } else {
        assert(t.drop_last() =~= s);
    }
}

/// Toggles of two different names may come in either order: the feature map
/// is the same.
pub proof fn lemma_toggles_commute(
    s: Seq<(Seq<char>, bool)>,
    a: Seq<char>,
    ea: bool,
    b: Seq<char>,
    eb: bool,
)
    requires
        names_distinct(s),
        a != b,
    ensures
        feature_map(toggled(toggled(s, a, ea), b, eb)) == feature_map(toggled(toggled(s, b, eb), a, ea)),
{
    lemma_toggled_distinct(s, a, ea);
    lemma_toggled_distinct(s, b, eb);
    lemma_toggled_map(s, a, ea);
    lemma_toggled_map(s, b, eb);
    lemma_toggled_map(toggled(s, a, ea), b, eb);
    lemma_toggled_map(toggled(s, b, eb), a, ea);
    assert(feature_map(s).insert(a, ea).insert(b, eb) =~= feature_map(s).insert(b, eb).insert(a, ea));
}

/// The toggle that `t` writes as `+name` or `-name`, if it is one.
pub open spec fn parse_toggle(t: Seq<char>) -> Option<(Seq<char>, bool)> {
    if t.len() >= 2 && (t[0] == '+' || t[0] == '-') {
        Some((t.skip(1), t[0] == '+'))
    } else {
        None
    }
}

/// Applies the entry `entry` to the toggles `acc`; an empty entry changes
/// nothing; `None` once an entry was malformed.
pub open spec fn close_entry(acc: Option<Seq<(Seq<char>, bool)>>, entry: Seq<char>) -> Option<Seq<(Seq<char>, bool)>> {
    match acc {
        None => None,
        Some(a) => if entry.len() == 0 {
            Some(a)
        } else {
            match parse_toggle(entry) {
                None => None,
                Some(t) => Some(toggled(a, t.0, t.1)),
            }
        },
    }
}

/// Reading `s` from the left: the toggles of the entries closed by a comma so
/// far, and the text of the entry still open.
pub open spec fn scan_features(s: Seq<char>) -> (Option<Seq<(Seq<char>, bool)>>, Seq<char>)
    decreases s.len(),
{
    if s.len() == 0 {
        (Some(Seq::empty()), Seq::empty())
    } else {
        let p = scan_features(s.drop_last());
        if s.last() == ',' {
            (close_entry(p.0, p.1), Seq::empty())
        } else {
            (p.0, p.1.push(s.last()))
        }
    }
}

/// The toggles that a feature string describes, its comma separated entries
/// applied in order, empty entries skipped; `None` if an entry is neither
/// empty nor `+name` or `-name`.
pub open spec fn parse_features(s: Seq<char>) -> Option<Seq<(Seq<char>, bool)>> {
    close_entry(scan_features(s).0, scan_features(s).1)
}

/// A set of feature toggles with at most one entry per name, in the order in
/// which each name was first toggled.
pub struct FeatureSet {
    entries: Vec<Feature>,
}

impl View for FeatureSet {
    type V = Seq<(Seq<char>, bool)>;

    closed spec fn view(&self) -> Seq<(Seq<char>, bool)> {
        self.entries@.map_values(|f: Feature| (f.name@, f.enabled))
    }
}

impl FeatureSet {
    pub open spec fn wf(&self) -> bool {
        names_distinct(self@)
    }

    /// An empty set of toggles.
    pub fn new() -> (r: FeatureSet)
        ensures
            r.wf(),
            r@ == Seq::<(Seq<char>, bool)>::empty(),
    {
        FeatureSet { entries: Vec::new() }
    }

    /// Number of distinct feature names toggled so far.
    pub fn len(&self) -> (r: usize)
        ensures
            r == self@.len(),
    {
        self.entries.len()
    }

    /// Sets the feature `name` to `enabled`, replacing any earlier toggle of the same name.
    pub fn set(&mut self, name: &str, enabled: bool)
        requires
            old(self).wf(),
        ensures
            final(self).wf(),
            final(self)@ == toggled(old(self)@, name@, enabled),
    {
        let ghost s = self@;
        let n = name.to_owned();
        let mut i: usize = 0;
        while i < self.entries.len()
            invariant
                self@ == s,
                s == old(self)@,
                names_distinct(s),
                n@ == name@,
                i <= self.entries.len(),
                forall|k: int| 0 <= k < i ==> s[k].0 != name@,
            decreases self.entries.len() - i,
        {
            if self.entries[i].name == n {
                proof {
                    assert(s[i as int].0 == name@);
                    assert(has_feature(s, name@));
                }
                self.entries.set(i, Feature { name: n, enabled });
                proof {
                    let t = toggled(s, name@, enabled);
                    assert forall|k: int| 0 <= k < s.len() implies #[trigger] self@[k] == t[k] by {
                        if k != i {
                            assert(s[k].0 != s[i as int].0);
                        }
                    }
                    assert(self@ =~= t);
                }
                return;
            }
            i = i + 1;
        }
        proof {
            assert(!has_feature(s, name@));
        }
        self.entries.push(Feature { name: n, enabled });
        proof {
            assert(self@ =~= s.push((name@, enabled)));
        }
    }

    /// Applies one feature string entry, `+name` or `-name`; an empty entry
    /// changes nothing. A malformed entry changes nothing and gives `false`.
    fn apply_entry(&mut self, entry: &str) -> (r: bool)
        requires
            old(self).wf(),
        ensures
            final(self).wf(),
            close_entry(Some(old(self)@), entry@) is None ==> !r && final(self)@ == old(self)@,
            close_entry(Some(old(self)@), entry@) is Some ==> r && Some(final(self)@) == close_entry(
                Some(old(self)@),
                entry@,
            ),
    {
        let len = entry.unicode_len();
        if len == 0 {
            return true;
        }
        if len < 2 {
            return false;
        }
        let c = entry.get_char(0);
        if c != '+' && c != '-' {
            return false;
        }
        let name = entry.substring_char(1, len);
        proof {
            assert(name@ =~= entry@.skip(1));
        }
        self.set(name, c == '+');
        true
    }

    /// The toggles of a feature string: comma separated `+name` (enable) and
    /// `-name` (disable) entries, applied in order, so that the last entry for
    /// a name wins. Empty entries are skipped.
    pub fn from_feature_string(features: &str) -> (r: Result<FeatureSet, ConfigError>)
        ensures
            match parse_features(features@) {
                Some(t) => r is Ok && r->Ok_0.wf() && r->Ok_0@ == t,
                None => r == Err::<FeatureSet, ConfigError>(ConfigError::MalformedFeature),
            },
    {
        let n = features.unicode_len();
        let mut set = FeatureSet::new();
        let mut ok = true;
        let mut entry_start: usize = 0;
        let mut i: usize = 0;
        proof {
            assert(features@.take(0) =~= Seq::<char>::empty());
            assert(features@.subrange(0, 0) =~= Seq::<char>::empty());
        }
        while i < n
            invariant
                i <= n,
                n == features@.len(),
                entry_start <= i,
                set.wf(),
                scan_features(features@.take(i as int)) == (
                    if ok { Some(set@) } else { None::<Seq<(Seq<char>, bool)>> },
                    features@.subrange(entry_start as int, i as int),
                ),
            decreases n - i,
        {
            let c = features.get_char(i);
            proof {
                assert(features@.take(i as int + 1).drop_last() =~= features@.take(i as int));
                assert(features@.take(i as int + 1).last() == c);
            }
            if c == ',' {
                if ok {
                    ok = set.apply_entry(features.substring_char(entry_start, i));
                }
                entry_start = i + 1;
                proof {
                    assert(features@.subrange(entry_start as int, i as int + 1) =~= Seq::<char>::empty());
                }
            } else {
                proof {
                    assert(features@.subrange(entry_start as int, i as int + 1) =~= features@.subrange(
                        entry_start as int,
                        i as int,
                    ).push(c));
                }
            }
            i = i + 1;
        }
        proof {
            assert(features@.take(n as int) =~= features@);
        }
        if ok {
            ok = set.apply_entry(features.substring_char(entry_start, n));
        }
        if ok {
            Ok(set)
        } else {
            Err(ConfigError::MalformedFeature)
        }
    }

    /// Enables the feature `name`; a disable toggle of that name is dropped.
    pub fn enable(&mut self, name: &str)
        requires
            old(self).wf(),
        ensures
            final(self).wf(),
            final(self)@ == toggled(old(self)@, name@, true),
    {
        self.set(name, true)
    }

    /// Disables the feature `name`; an enable toggle of that name is dropped.
    pub fn disable(&mut self, name: &str)
        requires
            old(self).wf(),
        ensures
            final(self).wf(),
            final(self)@ == toggled(old(self)@, name@, false),
    {
        self.set(name, false)
    }

    /// The backend's form of the toggles: `+name` for enabled, `-name` for
    /// disabled, joined by commas.
    pub fn to_feature_string(&self) -> (r: String)
        ensures
            r@ == feature_string(self@),
    {
        let mut out = String::new();
        let mut i: usize = 0;
        while i < self.entries.len()
            invariant
                i <= self.entries.len(),
                out@ == feature_string(self@.take(i as int)),
            decreases self.entries.len() - i,
        {
            proof {
                reveal_strlit(",");
                reveal_strlit("+");
                reveal_strlit("-");
                assert(self@.take(i as int + 1).drop_last() =~= self@.take(i as int));
            }
            if i > 0 {
                out.append(",");
            }
            if self.entries[i].enabled {
                out.append("+");
            } else {
                out.append("-");
            }
            out.append(self.entries[i].name.as_str());
            proof {
                let t = self@.take(i as int + 1);
                if i == 0 {
                    assert(out@ =~= toggle_text(t[0]));
                } else {
                    assert(out@ =~= feature_string(t.drop_last()) + seq![','] + toggle_text(t.last()));
                }
            }
            i = i + 1;
        }
        proof {
            assert(self@.take(i as int) =~= self@);
        }
        out
    }
}

} // verus!
