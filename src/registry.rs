//! The definition registry: named pattern fragments, each stored with its raw
//! text and with that text resolved against the definitions known when it was
//! inserted.
use vstd::prelude::*;
use crate::text::{replace_all, replace_literal, same_text};

verus! {

/// The identifiers of the `{identifier}` placeholders of `s`, left to right.
pub uninterp spec fn placeholder_names(s: Seq<char>) -> Seq<Seq<char>>;

/// Relies on `regex::Regex::captures_iter` with the pattern `\{(\w+)\}`: the
/// text of capture group 1 of each match, in order. It depends on `s` alone.
#[verifier::external_body]
fn placeholders_in(s: &str) -> (r: Vec<String>)
    ensures
        r.deep_view() == placeholder_names(s@),
{
    let re = regex::Regex::new(r"\{(\w+)\}").unwrap();
    re.captures_iter(s).map(|caps| caps[1].to_string()).collect()
}

/// The placeholder text `{name}`.
pub open spec fn placeholder(name: Seq<char>) -> Seq<char> {
    seq!['{'] + name + seq!['}']
}

/// One pass of substitution over `s`: for each name of `names` in turn that
/// `raw` knows, every occurrence of its placeholder is replaced by its raw text.
pub open spec fn resolve_with(
    raw: Map<Seq<char>, Seq<char>>,
    names: Seq<Seq<char>>,
    s: Seq<char>,
) -> Seq<char>
    decreases names.len(),
{
    if names.len() == 0 {
        s
    } else {
        let prev = resolve_with(raw, names.drop_last(), s);
        let n = names.last();
        if raw.contains_key(n) {
            replace_all(prev, placeholder(n), raw[n])
        } else {
            prev
        }
    }
}

/// The raw and resolved maps that a registry holds, keyed by name.
pub type RegistryModel = (Map<Seq<char>, Seq<char>>, Map<Seq<char>, Seq<char>>);

/// The registry after `insert(key, value)`: `value` stored as the raw text of
/// `key`, and resolved against the raw map that already holds it.
pub open spec fn insert_model(m: RegistryModel, key: Seq<char>, value: Seq<char>) -> RegistryModel {
    let raw = m.0.insert(key, value);
    (raw, m.1.insert(key, resolve_with(raw, placeholder_names(value), value)))
}

/// A named pattern fragment.
pub struct Definition {
    pub name: String,
    pub raw_pattern: String,
    pub resolved_pattern: String,
}

spec fn unique_names(s: Seq<Definition>) -> bool {
    forall|i: int, j: int| 0 <= i < j < s.len() ==> s[i].name@ != s[j].name@
}

spec fn has_name(s: Seq<Definition>, k: Seq<char>) -> bool {
    exists|i: int| 0 <= i < s.len() && #[trigger] s[i].name@ == k
}

spec fn slot(s: Seq<Definition>, k: Seq<char>) -> int {
    choose|i: int| 0 <= i < s.len() && #[trigger] s[i].name@ == k
}

spec fn raw_of(s: Seq<Definition>) -> Map<Seq<char>, Seq<char>> {
    Map::new(|k: Seq<char>| has_name(s, k), |k: Seq<char>| s[slot(s, k)].raw_pattern@)
}

spec fn resolved_of(s: Seq<Definition>) -> Map<Seq<char>, Seq<char>> {
    Map::new(|k: Seq<char>| has_name(s, k), |k: Seq<char>| s[slot(s, k)].resolved_pattern@)
}

proof fn lemma_slot(s: Seq<Definition>, i: int)
    requires
        unique_names(s),
        0 <= i < s.len(),
    ensures
        has_name(s, s[i].name@),
        slot(s, s[i].name@) == i,
{
    assert(has_name(s, s[i].name@));
}

proof fn lemma_update(s: Seq<Definition>, i: int, d: Definition)
    requires
        unique_names(s),
        0 <= i < s.len(),
        d.name@ == s[i].name@,
    ensures
        unique_names(s.update(i, d)),
        raw_of(s.update(i, d)) == raw_of(s).insert(d.name@, d.raw_pattern@),
        resolved_of(s.update(i, d)) == resolved_of(s).insert(d.name@, d.resolved_pattern@),
{
    let t = s.update(i, d);
    assert(unique_names(t)) by {
        assert forall|a: int, b: int| 0 <= a < b < t.len() implies t[a].name@ != t[b].name@ by {
            assert(s[a].name@ != s[b].name@);
        }
    }
    lemma_slot(t, i);
    assert forall|k: Seq<char>| k != d.name@ implies (has_name(t, k) == has_name(s, k) && (
    has_name(s, k) ==> slot(t, k) == slot(s, k))) by {
        if has_name(s, k) {
            let j = slot(s, k);
            assert(t[j] == s[j]);
            lemma_slot(t, j);
        }
        if has_name(t, k) {
            let j = slot(t, k);
            assert(t[j] == s[j]);
        }
    }
    assert(raw_of(t) =~= raw_of(s).insert(d.name@, d.raw_pattern@));
    assert(resolved_of(t) =~= resolved_of(s).insert(d.name@, d.resolved_pattern@));
}

proof fn lemma_push(s: Seq<Definition>, d: Definition)
    requires
        unique_names(s),
        !has_name(s, d.name@),
    ensures
        unique_names(s.push(d)),
        raw_of(s.push(d)) == raw_of(s).insert(d.name@, d.raw_pattern@),
        resolved_of(s.push(d)) == resolved_of(s).insert(d.name@, d.resolved_pattern@),
{
    let t = s.push(d);
    assert(unique_names(t)) by {
        assert forall|a: int, b: int| 0 <= a < b < t.len() implies t[a].name@ != t[b].name@ by {
            if b == s.len() {
                assert(t[a] == s[a]);
            }
        }
    }
    lemma_slot(t, s.len() as int);
    assert forall|k: Seq<char>| k != d.name@ implies (has_name(t, k) == has_name(s, k) && (
    has_name(s, k) ==> slot(t, k) == slot(s, k))) by {
        if has_name(s, k) {
            let j = slot(s, k);
            assert(t[j] == s[j]);
            lemma_slot(t, j);
        }
        if has_name(t, k) {
            let j = slot(t, k);
            assert(t[j] == s[j]);
        }
    }
    assert(raw_of(t) =~= raw_of(s).insert(d.name@, d.raw_pattern@));
    assert(resolved_of(t) =~= resolved_of(s).insert(d.name@, d.resolved_pattern@));
}

/// The registry of definitions, each name stored once.
pub struct RegexDefinitions {
    definitions: Vec<Definition>,
}

impl View for RegexDefinitions {
    type V = RegistryModel;

    closed spec fn view(&self) -> RegistryModel {
        (raw_of(self.definitions@), resolved_of(self.definitions@))
    }
}

impl RegexDefinitions {
    /// No two definitions share a name.
    pub closed spec fn wf(&self) -> bool {
        unique_names(self.definitions@)
    }

    pub fn new() -> (r: Self)
        ensures
            r.wf(),
            r@.0 == Map::<Seq<char>, Seq<char>>::empty(),
            r@.1 == Map::<Seq<char>, Seq<char>>::empty(),
    {
        let r = RegexDefinitions { definitions: Vec::new() };
        assert(r@.0 =~= Map::<Seq<char>, Seq<char>>::empty());
        assert(r@.1 =~= Map::<Seq<char>, Seq<char>>::empty());
        r
    }

    fn find(&self, key: &str) -> (r: Option<usize>)
        ensures
            match r {
                Some(i) => i < self.definitions.len() && self.definitions@[i as int].name@ == key@,
                None => !has_name(self.definitions@, key@),
            },
    {
        let mut i: usize = 0;
        while i < self.definitions.len()
            invariant
                i <= self.definitions.len(),
                forall|j: int| 0 <= j < i ==> self.definitions@[j].name@ != key@,
            decreases self.definitions.len() - i,
        {
            if same_text(self.definitions[i].name.as_str(), key) {
                return Some(i);
            }
            i = i + 1;
        }
        None
    }

    /// The placeholder text `{name}`.
    fn placeholder_text(name: &str) -> (r: String)
        ensures
            r@ == placeholder(name@),
    {
        let open = String::from_str("{");
        proof {
            reveal_strlit("{");
            reveal_strlit("}");
        }
        let r = open.concat(name).concat("}");
        assert(r@ =~= placeholder(name@));
        r
    }

    /// `value` resolved against the current raw map, taking `names` as the
    /// identifiers of its placeholders.
    pub fn resolve_names(&self, value: &str, names: &Vec<String>) -> (r: String)
        requires
            self.wf(),
        ensures
            r@ == resolve_with(self@.0, names.deep_view(), value@),
    {
        let ghost all = names.deep_view();
        let mut resolved = String::from_str(value);
        let mut i: usize = 0;
        assert(all.take(0) =~= Seq::<Seq<char>>::empty());
        while i < names.len()
            invariant
                self.wf(),
                all == names.deep_view(),
                i <= names.len(),
                resolved@ == resolve_with(self@.0, all.take(i as int), value@),
            decreases names.len() - i,
        {
            let name = names[i].as_str();
            assert(all[i as int] == name@);
            assert(all.take(i + 1).drop_last() =~= all.take(i as int));
            assert(all.take(i + 1).last() == name@);
            match self.find(name) {
                Some(j) => {
                    proof {
                        lemma_slot(self.definitions@, j as int);
                    }
                    let ph = Self::placeholder_text(name);
                    resolved = replace_literal(
                        resolved.as_str(),
                        ph.as_str(),
                        self.definitions[j].raw_pattern.as_str(),
                    );
                },
                None => {},
            }
            i = i + 1;
        }
        assert(all.take(names.len() as int) =~= all);
        resolved
    }

    /// `value` with the placeholders of known names replaced by their raw
    /// text, in one pass.
    pub fn resolve(&self, value: &str) -> (r: String)
        requires
            self.wf(),
        ensures
            r@ == resolve_with(self@.0, placeholder_names(value@), value@),
    {
        let names = placeholders_in(value);
        self.resolve_names(value, &names)
    }

    /// Stores `value` as the raw text of `key`, replacing any earlier one, and
    /// stores its resolution against the raw map that now holds it.
    pub fn insert(&mut self, key: String, value: String)
        requires
            old(self).wf(),
        ensures
            final(self).wf(),
            final(self)@ == insert_model(old(self)@, key@, value@),
    {
        let ghost m0 = self@;
        let d = Definition { name: key.clone(), raw_pattern: value.clone(), resolved_pattern: String::new() };
        let idx: usize;
        match self.find(key.as_str()) {
            Some(i) => {
                proof {
                    lemma_update(self.definitions@, i as int, d);
                }
                self.definitions.set(i, d);
                idx = i;
            },
            None => {
                proof {
                    lemma_push(self.definitions@, d);
                }
                idx = self.definitions.len();
                self.definitions.push(d);
            },
        }
        assert(self@.0 == m0.0.insert(key@, value@));
        let resolved = self.resolve(value.as_str());
        let d2 = Definition { name: key, raw_pattern: value, resolved_pattern: resolved };
        proof {
            lemma_update(self.definitions@, idx as int, d2);
        }
        self.definitions.set(idx, d2);
        assert(self@.1 =~= m0.1.insert(key@, resolved@));
    }

    /// The raw text stored under `name`.
    pub fn get_raw(&self, name: &str) -> (r: Option<String>)
        requires
            self.wf(),
        ensures
            r matches Some(v) ==> self@.0.contains_key(name@) && v@ == self@.0[name@],
            r is None ==> !self@.0.contains_key(name@),
    {
        match self.find(name) {
            Some(i) => {
                proof {
                    lemma_slot(self.definitions@, i as int);
                }
                Some(self.definitions[i].raw_pattern.clone())
            },
            None => None,
        }
    }

    /// The resolved text stored under `name`.
    pub fn get_resolved(&self, name: &str) -> (r: Option<String>)
        requires
            self.wf(),
        ensures
            r matches Some(v) ==> self@.1.contains_key(name@) && v@ == self@.1[name@],
            r is None ==> !self@.1.contains_key(name@),
    {
        match self.find(name) {
            Some(i) => {
                proof {
                    lemma_slot(self.definitions@, i as int);
                }
                Some(self.definitions[i].resolved_pattern.clone())
            },
            None => None,
        }
    }

    /// The names of the definitions, each once.
    pub fn names(&self) -> (r: Vec<String>)
        requires
            self.wf(),
        ensures
            r.deep_view().no_duplicates(),
            r.deep_view().to_set() == self@.0.dom(),
    {
        let mut r: Vec<String> = Vec::new();
        let mut i: usize = 0;
        while i < self.definitions.len()
            invariant
                self.wf(),
                i <= self.definitions.len(),
                r.deep_view().len() == i,
                forall|j: int| 0 <= j < i ==> #[trigger] r.deep_view()[j] == self.definitions@[j].name@,
            decreases self.definitions.len() - i,
        {
            let ghost before = r.deep_view();
            let name = self.definitions[i].name.clone();
            r.push(name);
            assert(r.deep_view() =~= before.push(self.definitions@[i as int].name@));
            i = i + 1;
        }
        let ghost v = r.deep_view();
        assert(v.no_duplicates()) by {
            assert forall|a: int, b: int| 0 <= a < v.len() && 0 <= b < v.len() && a != b implies v[a] != v[b] by {
                if a < b {
                    assert(v[a] == self.definitions@[a].name@);
                } else {
                    assert(v[b] == self.definitions@[b].name@);
                }
            }
        }
        assert forall|k: Seq<char>| v.to_set().contains(k) == self@.0.dom().contains(k) by {
            if v.to_set().contains(k) {
                assert(v.contains(k));
                let j = choose|j: int| 0 <= j < v.len() && v[j] == k;
                lemma_slot(self.definitions@, j);
            }
            if self@.0.dom().contains(k) {
                let j = slot(self.definitions@, k);
                assert(v[j] == k);
                assert(v.contains(k));
            }
        }
        assert(v.to_set() =~= self@.0.dom());
        r
    }
}

/// A definition resolves only against names already known: when `a` is
/// inserted before `b` and `{a}` is the one placeholder of `b`'s text, `b`'s
/// resolved text has `a`'s raw text in its place; `a`'s resolved text stays as
/// it was when `a` was inserted, so a placeholder `{b}` in it stays literal.
pub proof fn lemma_insertion_order(
    m: RegistryModel,
    a: Seq<char>,
    a_raw: Seq<char>,
    b: Seq<char>,
    b_raw: Seq<char>,
)
    requires
        a != b,
        placeholder_names(b_raw) == seq![a],
    ensures
        ({
            let m2 = insert_model(insert_model(m, a, a_raw), b, b_raw);
            &&& m2.1[b] == replace_all(b_raw, placeholder(a), a_raw)
            &&& m2.1[a] == insert_model(m, a, a_raw).1[a]
        }),
{
    let m1 = insert_model(m, a, a_raw);
    let raw2 = m1.0.insert(b, b_raw);
    let names = seq![a];
    assert(names.drop_last() =~= Seq::<Seq<char>>::empty());
    assert(resolve_with(raw2, names.drop_last(), b_raw) == b_raw);
}

/// A forward reference is kept: when `{b}` is the one placeholder of `a`'s
/// text and `b` is not known yet, `a` resolves to its raw text, and inserting
/// `b` afterwards leaves that unchanged.
pub proof fn lemma_forward_reference(
    m: RegistryModel,
    a: Seq<char>,
    a_raw: Seq<char>,
    b: Seq<char>,
    b_raw: Seq<char>,
)
    requires
        a != b,
        !m.0.contains_key(b),
        placeholder_names(a_raw) == seq![b],
    ensures
        insert_model(insert_model(m, a, a_raw), b, b_raw).1[a] == a_raw,
{
    let raw1 = m.0.insert(a, a_raw);
    let names = seq![b];
    assert(names.drop_last() =~= Seq::<Seq<char>>::empty());
    assert(resolve_with(raw1, names.drop_last(), a_raw) == a_raw);
    assert(!raw1.contains_key(b));
}

/// Placeholders of names that are not known are left as they are: the
/// text resolves to itself, and resolving it again gives it once more.
pub proof fn lemma_unknown_names_kept(
    raw: Map<Seq<char>, Seq<char>>,
    names: Seq<Seq<char>>,
    s: Seq<char>,
)
    requires
        forall|i: int| 0 <= i < names.len() ==> !raw.contains_key(#[trigger] names[i]),
    ensures
        resolve_with(raw, names, s) == s,
        resolve_with(raw, names, resolve_with(raw, names, s)) == resolve_with(raw, names, s),
    decreases names.len(),
{
    if names.len() > 0 {
        let p = names.drop_last();
        assert forall|i: int| 0 <= i < p.len() implies !raw.contains_key(#[trigger] p[i]) by {
            assert(p[i] == names[i]);
        }
        lemma_unknown_names_kept(raw, p, s);
        assert(!raw.contains_key(names[names.len() - 1]));
    }
}

} // verus!
