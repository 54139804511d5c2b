//! String constants (`!constant`) and `${name}` substitution in directive values.

use vstd::prelude::*;

verus! {

/// The constants in force at one point of a document: each name bound to its value.
pub struct ConstantEnvironment {
    /// Name and value pairs, each name at most once.
    pub bindings: Vec<(String, String)>,
}

/// The value bound to `name` (its first binding).
pub open spec fn env_lookup(env: Seq<(String, String)>, name: Seq<char>) -> Option<Seq<char>>
    decreases env.len(),
{
    if env.len() == 0 {
        None
    } else if env[0].0@ == name {
        Some(env[0].1@)
    } else {
        env_lookup(env.drop_first(), name)
    }
}

/// The value each constant name is bound to, if any.
pub type ConstantValues = spec_fn(Seq<char>) -> Option<Seq<char>>;

/// The constants of `env` as the value each name is bound to.
pub open spec fn bound_values(env: Seq<(String, String)>) -> ConstantValues {
    |name: Seq<char>| env_lookup(env, name)
}

/// `values` with `name` bound to `value`.
pub open spec fn bind(values: ConstantValues, name: Seq<char>, value: Seq<char>) -> ConstantValues {
    |k: Seq<char>| if k == name { Some(value) } else { values(k) }
}

/// No name is bound twice.
pub open spec fn env_distinct(env: Seq<(String, String)>) -> bool {
    forall|i: int, j: int| 0 <= i < j < env.len() ==> (#[trigger] env[i]).0@ != (#[trigger] env[j]).0@
}

pub proof fn lemma_env_lookup_at(env: Seq<(String, String)>, name: Seq<char>, i: int)
    requires
        0 <= i < env.len(),
        env[i].0@ == name,
        forall|j: int| 0 <= j < i ==> (#[trigger] env[j]).0@ != name,
    ensures
        env_lookup(env, name) == Some(env[i].1@),
    decreases i,
{
    if i > 0 {
        assert forall|j: int| 0 <= j < i - 1 implies (#[trigger] env.drop_first()[j]).0@ != name by {
            assert(env.drop_first()[j] == env[j + 1]);
        }
        lemma_env_lookup_at(env.drop_first(), name, i - 1);
    }
}

pub proof fn lemma_env_lookup_none(env: Seq<(String, String)>, name: Seq<char>)
    requires
        forall|j: int| 0 <= j < env.len() ==> (#[trigger] env[j]).0@ != name,
    ensures
        env_lookup(env, name) is None,
    decreases env.len(),
{
    if env.len() > 0 {
        assert forall|j: int| 0 <= j < env.len() - 1 implies (#[trigger] env.drop_first()[j]).0@ != name by {
            assert(env.drop_first()[j] == env[j + 1]);
        }
        lemma_env_lookup_none(env.drop_first(), name);
    }
}

impl ConstantEnvironment {
    /// An environment with no constants.
    pub fn new() -> (r: Self)
        ensures
            r.bindings@.len() == 0,
    {
        ConstantEnvironment { bindings: Vec::new() }
    }

    /// The value bound to `name`, if any.
    pub fn get(&self, name: &str) -> (r: Option<&str>)
        ensures
            match r {
                Some(v) => env_lookup(self.bindings@, name@) == Some(v@),
                None => env_lookup(self.bindings@, name@) is None,
            },
    {
        let mut i: usize = 0;
        while i < self.bindings.len()
            invariant
                i <= self.bindings@.len(),
                forall|j: int| 0 <= j < i ==> (#[trigger] self.bindings@[j]).0@ != name@,
            decreases self.bindings.len() - i,
        {
            if crate::text::str_eq(self.bindings[i].0.as_str(), name) {
                proof {
                    lemma_env_lookup_at(self.bindings@, name@, i as int);
                }
                return Some(self.bindings[i].1.as_str());
            }
            i = i + 1;
        }
        proof {
            lemma_env_lookup_none(self.bindings@, name@);
        }
        None
    }

    /// Binds `name` to `value`, replacing any earlier binding of `name`.
    pub fn insert(&mut self, name: String, value: String)
        requires
            env_distinct(old(self).bindings@),
        ensures
            env_distinct(final(self).bindings@),
            forall|k: Seq<char>|
                #[trigger] env_lookup(final(self).bindings@, k) == if k == name@ {
                    Some(value@)
                } else {
                    env_lookup(old(self).bindings@, k)
                },
    {
        let ghost old_b = self.bindings@;
        let mut i: usize = 0;
        while i < self.bindings.len()
            invariant
                self.bindings@ == old_b,
                old_b == old(self).bindings@,
                env_distinct(old_b),
                i <= old_b.len(),
                forall|j: int| 0 <= j < i ==> (#[trigger] old_b[j]).0@ != name@,
            decreases self.bindings.len() - i,
        {
            if crate::text::str_eq(self.bindings[i].0.as_str(), name.as_str()) {
                self.bindings.set(i, (name, value));
                proof {
                    let nb = self.bindings@;
                    assert forall|a: int, b: int| 0 <= a < b < nb.len() implies (#[trigger] nb[a]).0@
                        != (#[trigger] nb[b]).0@ by {
                        if a != i && b != i {
                            assert(nb[a] == old_b[a] && nb[b] == old_b[b]);
                        } else if a == i {
                            assert(nb[b] == old_b[b]);
                        } else {
                            assert(nb[a] == old_b[a]);
                        }
                    }
                    assert forall|k: Seq<char>| #[trigger] env_lookup(nb, k) == if k == name@ {
                        Some(value@)
                    } else {
                        env_lookup(old_b, k)
                    } by {
                        if k == name@ {
                            assert forall|x: int| 0 <= x < i implies (#[trigger] nb[x]).0@ != k by {
                                assert(nb[x] == old_b[x]);
                            }
                            lemma_env_lookup_at(nb, k, i as int);
                        } else {
                            if exists|j: int| 0 <= j < old_b.len() && (#[trigger] old_b[j]).0@ == k {
                                let j = choose|j: int| 0 <= j < old_b.len() && (#[trigger] old_b[j]).0@ == k;
                                assert forall|x: int| 0 <= x < j implies (#[trigger] old_b[x]).0@ != k by {}
                                lemma_env_lookup_at(old_b, k, j);
                                assert(j != i);
                                assert forall|x: int| 0 <= x < j implies (#[trigger] nb[x]).0@ != k by {
                                    if x != i {
                                        assert(nb[x] == old_b[x]);
                                    }
                                }
                                assert(nb[j] == old_b[j]);
                                lemma_env_lookup_at(nb, k, j);
                            } else {
                                lemma_env_lookup_none(old_b, k);
                                assert forall|x: int| 0 <= x < nb.len() implies (#[trigger] nb[x]).0@ != k by {
                                    if x != i {
                                        assert(nb[x] == old_b[x]);
                                    }
                                }
                                lemma_env_lookup_none(nb, k);
                            }
                        }
                    }
                }
                return;
            }
            i = i + 1;
        }
        self.bindings.push((name, value));
        proof {
            let nb = self.bindings@;
            assert forall|a: int, b: int| 0 <= a < b < nb.len() implies (#[trigger] nb[a]).0@ != (#[trigger] nb[b]).0@ by {
                if b < old_b.len() {
                    assert(nb[a] == old_b[a] && nb[b] == old_b[b]);
                } else {
                    assert(nb[a] == old_b[a]);
                }
            }
            assert forall|k: Seq<char>| #[trigger] env_lookup(nb, k) == if k == name@ {
                Some(value@)
            } else {
                env_lookup(old_b, k)
            } by {
                if k == name@ {
                    assert forall|x: int| 0 <= x < old_b.len() implies (#[trigger] nb[x]).0@ != k by {
                        assert(nb[x] == old_b[x]);
                    }
                    lemma_env_lookup_at(nb, k, old_b.len() as int);
                } else {
                    if exists|j: int| 0 <= j < old_b.len() && (#[trigger] old_b[j]).0@ == k {
                        let j = choose|j: int| 0 <= j < old_b.len() && (#[trigger] old_b[j]).0@ == k;
                        assert forall|x: int| 0 <= x < j implies (#[trigger] old_b[x]).0@ != k by {}
                        lemma_env_lookup_at(old_b, k, j);
                        assert forall|x: int| 0 <= x < j implies (#[trigger] nb[x]).0@ != k by {
                            assert(nb[x] == old_b[x]);
                        }
                        assert(nb[j] == old_b[j]);
                        lemma_env_lookup_at(nb, k, j);
                    } else {
                        lemma_env_lookup_none(old_b, k);
                        assert forall|x: int| 0 <= x < nb.len() implies (#[trigger] nb[x]).0@ != k by {
                            if x < old_b.len() {
                                assert(nb[x] == old_b[x]);
                            }
                        }
                        lemma_env_lookup_none(nb, k);
                    }
                }
            }
        }
    }
}

/// Index of the first `${` in `s`, or -1.
pub open spec fn find_marker(s: Seq<char>) -> int
    decreases s.len(),
{
    if s.len() < 2 {
        -1
    } else if s[0] == '$' && s[1] == '{' {
        0
    } else {
        let r = find_marker(s.drop_first());
        if r < 0 {
            -1
        } else {
            r + 1
        }
    }
}

/// Index of the first `c` in `s`, or -1.
pub open spec fn find_char(s: Seq<char>, c: char) -> int
    decreases s.len(),
{
    if s.len() == 0 {
        -1
    } else if s[0] == c {
        0
    } else {
        let r = find_char(s.drop_first(), c);
        if r < 0 {
            -1
        } else {
            r + 1
        }
    }
}

/// Whether a character may appear in a substitution name.
pub open spec fn name_char_ok(c: char) -> bool {
    ('a' <= c && c <= 'z') || ('A' <= c && c <= 'Z') || ('0' <= c && c <= '9') || c == '-' || c == '_' || c
        == '.'
}

/// Whether a substitution name is non-empty and made of ASCII letters, digits, `-`, `_`, `.`.
pub open spec fn supported_name(name: Seq<char>) -> bool {
    name.len() > 0 && forall|i: int| 0 <= i < name.len() ==> name_char_ok(#[trigger] name[i])
}

/// What the placeholder `ph[..=e]` (which starts with `${` and ends at its first `}`) becomes:
/// the value of its name when the name is supported and bound, else the placeholder as written.
pub open spec fn replacement(ph: Seq<char>, e: int, values: ConstantValues) -> Seq<char> {
    let name = ph.subrange(2, e);
    if supported_name(name) && values(name) is Some {
        values(name)->0
    } else {
        ph.take(e + 1)
    }
}

/// `value` with each `${name}` of a supported, bound name replaced by its value; any other
/// placeholder, and an unterminated `${`, stays as written.
pub open spec fn expand_with(s: Seq<char>, values: ConstantValues) -> Seq<char>
    decreases s.len(),
{
    let m = find_marker(s);
    if m < 0 || m + 1 >= s.len() {
        s
    } else {
        let ph = s.skip(m);
        let e = find_char(ph, '}');
        if e < 2 || e >= ph.len() {
            s
        } else {
            s.take(m) + replacement(ph, e, values) + expand_with(ph.skip(e + 1), values)
        }
    }
}

/// `value` expanded with the constants of `env`.
pub open spec fn expand(s: Seq<char>, env: Seq<(String, String)>) -> Seq<char> {
    expand_with(s, bound_values(env))
}

pub proof fn lemma_find_marker(s: Seq<char>)
    ensures
        -1 <= find_marker(s) < s.len() - 1 || find_marker(s) == -1,
        find_marker(s) >= 0 ==> s[find_marker(s)] == '$' && s[find_marker(s) + 1] == '{',
        forall|i: int| 0 <= i < (if find_marker(s) < 0 { s.len() - 1 } else { find_marker(s) }) ==> !(s[i] == '$'
            && #[trigger] s[i + 1] == '{'),
    decreases s.len(),
{
    if s.len() >= 2 && !(s[0] == '$' && s[1] == '{') {
        lemma_find_marker(s.drop_first());
        assert forall|i: int| 0 <= i < (if find_marker(s) < 0 { s.len() - 1 } else { find_marker(s) }) implies !(s[i]
            == '$' && #[trigger] s[i + 1] == '{') by {
            if i > 0 {
                assert(s[i] == s.drop_first()[i - 1]);
                assert(s[i + 1] == s.drop_first()[i]);
            }
        }
    }
}

pub proof fn lemma_find_char(s: Seq<char>, c: char)
    ensures
        -1 <= find_char(s, c) < s.len(),
        find_char(s, c) >= 0 ==> s[find_char(s, c)] == c,
        forall|i: int| 0 <= i < (if find_char(s, c) < 0 { s.len() as int } else { find_char(s, c) }) ==> #[trigger] s[i] != c,
    decreases s.len(),
{
    if s.len() > 0 && s[0] != c {
        lemma_find_char(s.drop_first(), c);
        assert forall|i: int| 0 <= i < (if find_char(s, c) < 0 { s.len() as int } else { find_char(s, c) }) implies #[trigger] s[i]
            != c by {
            if i > 0 {
                assert(s[i] == s.drop_first()[i - 1]);
            }
        }
    }
}

/// Expanding with no constants leaves every value unchanged.
pub proof fn lemma_expand_without_constants(s: Seq<char>, env: Seq<(String, String)>)
    requires
        env.len() == 0,
    ensures
        expand(s, env) == s,
    decreases s.len(),
{
    let m = find_marker(s);
    if m >= 0 && m + 1 < s.len() {
        let ph = s.skip(m);
        let e = find_char(ph, '}');
        if 2 <= e < ph.len() {
            lemma_expand_without_constants(ph.skip(e + 1), env);
            assert(env_lookup(env, ph.subrange(2, e)) is None);
            assert(replacement(ph, e, bound_values(env)) == ph.take(e + 1));
            assert(s.take(m) + ph.take(e + 1) + ph.skip(e + 1) =~= s);
        }
    }
}

/// A value with no `${` is its own expansion.
pub proof fn lemma_expand_without_markers(s: Seq<char>, env: Seq<(String, String)>)
    requires
        find_marker(s) < 0,
    ensures
        expand(s, env) == s,
{
}

/// Whether a substitution name is supported.
pub fn is_supported_substitution_name(name: &[char]) -> (r: bool)
    ensures
        r == supported_name(name@),
{
    if name.len() == 0 {
        return false;
    }
    let mut i: usize = 0;
    while i < name.len()
        invariant
            i <= name@.len(),
            forall|j: int| 0 <= j < i ==> name_char_ok(#[trigger] name@[j]),
        decreases name.len() - i,
    {
        let c = name[i];
        let ok = ('a' <= c && c <= 'z') || ('A' <= c && c <= 'Z') || ('0' <= c && c <= '9') || c == '-' || c == '_'
            || c == '.';
        if !ok {
            return false;
        }
        i = i + 1;
    }
    true
}

fn find_marker_from(cs: &Vec<char>, pos: usize) -> (r: Option<usize>)
    requires
        pos <= cs@.len(),
    ensures
        match r {
            Some(m) => pos <= m && m + 1 < cs@.len() && find_marker(cs@.skip(pos as int)) == m - pos,
            None => find_marker(cs@.skip(pos as int)) < 0,
        },
{
    let ghost s = cs@.skip(pos as int);
    proof {
        lemma_find_marker(s);
    }
    let mut i: usize = pos;
    while i < cs.len() && i + 1 < cs.len()
        invariant
            pos <= i,
            i <= cs@.len(),
            s == cs@.skip(pos as int),
            forall|j: int| pos <= j < i ==> !(cs@[j] == '$' && #[trigger] cs@[j + 1] == '{'),
        decreases cs.len() - i,
    {
        if cs[i] == '$' && cs[i + 1] == '{' {
            proof {
                lemma_find_marker(s);
                let m = find_marker(s);
                assert(s[i - pos] == '$' && s[i - pos + 1] == '{');
                if m < 0 || m > i - pos {
                    assert(!(s[i - pos] == '$' && s[(i - pos) + 1] == '{'));
                }
                if 0 <= m < i - pos {
                    assert(s[m] == cs@[pos + m]);
                    assert(s[m + 1] == cs@[pos + m + 1]);
                }
            }
            return Some(i);
        }
        i = i + 1;
    }
    proof {
        let m = find_marker(s);
        if m >= 0 {
            assert(s[m] == cs@[pos + m]);
            assert(s[m + 1] == cs@[pos + m + 1]);
        }
    }
    None
}

fn find_close_from(cs: &Vec<char>, pos: usize) -> (r: Option<usize>)
    requires
        pos <= cs@.len(),
    ensures
        match r {
            Some(e) => pos <= e < cs@.len() && find_char(cs@.skip(pos as int), '}') == e - pos,
            None => find_char(cs@.skip(pos as int), '}') < 0,
        },
{
    let ghost s = cs@.skip(pos as int);
    proof {
        lemma_find_char(s, '}');
    }
    let mut i: usize = pos;
    while i < cs.len()
        invariant
            pos <= i <= cs@.len(),
            s == cs@.skip(pos as int),
            forall|j: int| pos <= j < i ==> #[trigger] cs@[j] != '}',
        decreases cs.len() - i,
    {
        if cs[i] == '}' {
            proof {
                lemma_find_char(s, '}');
                let e = find_char(s, '}');
                assert(s[i - pos] == '}');
                if 0 <= e < i - pos {
                    assert(s[e] == cs@[pos + e]);
                }
            }
            return Some(i);
        }
        i = i + 1;
    }
    proof {
        let e = find_char(s, '}');
        if e >= 0 {
            assert(s[e] == cs@[pos + e]);
        }
    }
    None
}

proof fn lemma_expand_step(s: Seq<char>, env: Seq<(String, String)>, m: int, e: int)
    requires
        m == find_marker(s),
        0 <= m,
        e == find_char(s.skip(m), '}'),
        0 <= e,
    ensures
        m + 1 < s.len(),
        2 <= e < s.len() - m,
        expand(s, env) == s.take(m) + replacement(s.skip(m), e, bound_values(env)) + expand(s.skip(m).skip(e + 1), env),
{
    lemma_find_marker(s);
    lemma_find_char(s.skip(m), '}');
    assert(s.skip(m)[0] == '$' && s.skip(m)[1] == '{');
}

/// Replaces each `${name}` of a supported name bound in `constants` by its value.
pub fn expand_string_substitutions(value: &str, constants: &ConstantEnvironment) -> (r: String)
    ensures
        r@ == expand(value@, constants.bindings@),
{
    let cs = crate::text::chars_of(value);
    let ghost env = constants.bindings@;
    let mut expanded = String::new();
    let mut pos: usize = 0;
    assert(cs@.skip(0) =~= cs@);
    loop
        invariant
            cs@ == value@,
            env == constants.bindings@,
            pos <= cs@.len(),
            expanded@ + expand(cs@.skip(pos as int), env) == expand(value@, env),
        decreases cs@.len() - pos,
    {
        let ghost s = cs@.skip(pos as int);
        let ghost done = expanded@;
        let marker = match find_marker_from(&cs, pos) {
            Some(m) => m,
            None => {
                let rest = crate::text::string_from_range(&cs, pos, cs.len());
                expanded.append(rest.as_str());
                assert(rest@ =~= s);
                return expanded;
            },
        };
        let close = match find_close_from(&cs, marker) {
            Some(e) => e,
            None => {
                proof {
                    lemma_find_marker(s);
                    assert(s.skip(marker - pos) =~= cs@.skip(marker as int));
                }
                let rest = crate::text::string_from_range(&cs, pos, cs.len());
                expanded.append(rest.as_str());
                assert(rest@ =~= s);
                return expanded;
            },
        };
        proof {
            assert(s.skip(marker - pos) =~= cs@.skip(marker as int));
            lemma_expand_step(s, env, marker - pos, close - marker);
        }
        assert(close < cs.len());
        let ghost ph = cs@.skip(marker as int);
        let ghost e = close - marker;
        let before = crate::text::string_from_range(&cs, pos, marker);
        let name_chars = crate::text::string_from_range(&cs, marker + 2, close);
        let name_vec = crate::text::chars_of(name_chars.as_str());
        let supported = is_supported_substitution_name(name_vec.as_slice());
        let replacement_value = if supported {
            constants.get(name_chars.as_str())
        } else {
            None
        };
        let piece = match replacement_value {
            Some(v) => crate::text::owned(v),
            None => crate::text::string_from_range(&cs, marker, close + 1),
        };
        proof {
            assert(name_chars@ =~= ph.subrange(2, e));
            assert(before@ =~= s.take(marker - pos));
            if replacement_value is None {
                assert(piece@ =~= ph.take(e + 1));
            }
            assert(piece@ == replacement(ph, e, bound_values(env)));
            assert(ph.skip(e + 1) =~= cs@.skip(close + 1));
        }
        expanded.append(before.as_str());
        expanded.append(piece.as_str());
        proof {
            assert(expanded@ =~= done + (before@ + piece@));
            assert(done + (s.take(marker - pos) + replacement(ph, e, bound_values(env)) + expand(ph.skip(e + 1), env)) =~= done
                + (before@ + piece@) + expand(cs@.skip(close + 1), env));
        }
        pos = close + 1;
    }
}

} // verus!
