//! A string-keyed map stored as a vector of pairs. The first position of a
//! key is kept when its value is replaced, so iteration order is stable;
//! header collections and the route table are both built on it.

use vstd::prelude::*;

use crate::text::str_eq;

verus! {

/// The entries of a map, as character sequences, in storage order.
pub type Entries = Seq<(Seq<char>, Seq<char>)>;

/// The first position of key `k` among the entries at or after `i`, or -1
/// if no entry from there on has that key.
pub open spec fn key_idx_from(m: Entries, k: Seq<char>, i: int) -> int
    decreases m.len() - i,
{
    if !(0 <= i < m.len()) {
        -1
    } else if m[i].0 == k {
        i
    } else {
        key_idx_from(m, k, i + 1)
    }
}

/// The first position of key `k`, or -1 if the map lacks it.
pub open spec fn key_idx(m: Entries, k: Seq<char>) -> int {
    key_idx_from(m, k, 0)
}

/// Whether the map holds key `k`.
pub open spec fn map_has(m: Entries, k: Seq<char>) -> bool {
    key_idx(m, k) >= 0
}

/// The value stored under key `k`.
pub open spec fn map_val(m: Entries, k: Seq<char>) -> Seq<char>
    recommends
        map_has(m, k),
{
    m[key_idx(m, k)].1
}

/// The entries after storing `v` under `k`: the value is replaced in place
/// when the key is present, and appended at the end otherwise.
pub open spec fn map_set(m: Entries, k: Seq<char>, v: Seq<char>) -> Entries {
    if map_has(m, k) {
        m.update(key_idx(m, k), (k, v))
    } else {
        m.push((k, v))
    }
}

/// Where `key_idx_from` points: at the first entry with key `k`, every
/// entry before it differing, or nowhere when no entry matches.
pub proof fn lemma_key_idx_from_props(m: Entries, k: Seq<char>, i: int)
    requires
        0 <= i,
    ensures
        key_idx_from(m, k, i) == -1 ==> forall|j: int|
            i <= j < m.len() ==> (#[trigger] m[j]).0 != k,
        key_idx_from(m, k, i) != -1 ==> i <= key_idx_from(m, k, i) < m.len() && m[key_idx_from(
            m,
            k,
            i,
        )].0 == k && forall|j: int| i <= j < key_idx_from(m, k, i) ==> (#[trigger] m[j]).0 != k,
    decreases m.len() - i,
{
    if 0 <= i < m.len() && m[i].0 != k {
        lemma_key_idx_from_props(m, k, i + 1);
    }
}

/// Two entry lists whose keys agree position by position index every key at
/// the same place.
pub proof fn lemma_key_idx_from_keys_agree(m1: Entries, m2: Entries, k: Seq<char>, i: int)
    requires
        m1.len() == m2.len(),
        forall|j: int| 0 <= j < m1.len() ==> (#[trigger] m1[j]).0 == m2[j].0,
    ensures
        key_idx_from(m1, k, i) == key_idx_from(m2, k, i),
    decreases m1.len() - i,
{
    if 0 <= i < m1.len() && m1[i].0 != k {
        lemma_key_idx_from_keys_agree(m1, m2, k, i + 1);
    }
}

/// Appending an entry leaves every present key where it was and places a
/// fresh key at the end.
pub proof fn lemma_key_idx_from_push(m: Entries, p: (Seq<char>, Seq<char>), k: Seq<char>, i: int)
    requires
        0 <= i <= m.len(),
    ensures
        key_idx_from(m.push(p), k, i) == (if key_idx_from(m, k, i) != -1 {
            key_idx_from(m, k, i)
        } else if p.0 == k {
            m.len() as int
        } else {
            -1
        }),
    decreases m.len() - i,
{
    if i < m.len() {
        assert(m.push(p)[i] == m[i]);
        if m[i].0 != k {
            lemma_key_idx_from_push(m, p, k, i + 1);
        }
    } else {
        assert(m.push(p)[i] == p);
        assert(key_idx_from(m.push(p), k, i + 1) == -1);
    }
}

/// How a lookup reads a map after a store: the stored key now maps to the
/// stored value, and every other key is untouched.
pub proof fn lemma_map_set(m: Entries, k: Seq<char>, v: Seq<char>, k2: Seq<char>)
    ensures
        map_has(map_set(m, k, v), k),
        map_val(map_set(m, k, v), k) == v,
        k2 != k ==> map_has(map_set(m, k, v), k2) == map_has(m, k2),
        k2 != k && map_has(m, k2) ==> map_val(map_set(m, k, v), k2) == map_val(m, k2),
{
    lemma_key_idx_from_props(m, k, 0);
    lemma_key_idx_from_props(m, k2, 0);
    if map_has(m, k) {
        let idx = key_idx(m, k);
        let m2 = m.update(idx, (k, v));
        assert forall|j: int| 0 <= j < m.len() implies (#[trigger] m[j]).0 == m2[j].0 by {}
        lemma_key_idx_from_keys_agree(m2, m, k, 0);
        lemma_key_idx_from_keys_agree(m2, m, k2, 0);
        lemma_key_idx_from_props(m2, k2, 0);
    } else {
        lemma_key_idx_from_push(m, (k, v), k, 0);
        lemma_key_idx_from_push(m, (k, v), k2, 0);
    }
}

/// One entry as a wire header line: `key: value` and a line break.
pub open spec fn header_line_text(p: (Seq<char>, Seq<char>)) -> Seq<char> {
    p.0 + seq![':', ' '] + p.1 + seq!['\r', '\n']
}

/// All entries as wire header lines, in storage order.
pub open spec fn header_lines_text(m: Entries) -> Seq<char>
    decreases m.len(),
{
    if m.len() == 0 {
        Seq::empty()
    } else {
        header_line_text(m[0]) + header_lines_text(m.drop_first())
    }
}

/// Extending the rendered prefix by one entry appends that entry's line.
pub proof fn lemma_header_lines_take_step(m: Entries, i: int)
    requires
        0 <= i < m.len(),
    ensures
        header_lines_text(m.take(i + 1)) == header_lines_text(m.take(i)) + header_line_text(m[i]),
    decreases i,
{
    if i == 0 {
        assert(m.take(1) =~= seq![m[0]]);
        assert(m.take(1).drop_first() =~= Seq::<(Seq<char>, Seq<char>)>::empty());
        assert(m.take(0) =~= Seq::<(Seq<char>, Seq<char>)>::empty());
        assert(header_lines_text(m.take(1).drop_first()) == Seq::<char>::empty());
        assert(m.take(1)[0] == m[0]);
        assert(header_lines_text(m.take(1)) =~= header_line_text(m[0]));
        assert(header_lines_text(m.take(0)) + header_line_text(m[0]) =~= header_line_text(m[0]));
    } else {
        let r = m.drop_first();
        lemma_header_lines_take_step(r, i - 1);
        assert(m.take(i + 1).drop_first() =~= r.take(i));
        assert(m.take(i).drop_first() =~= r.take(i - 1));
        assert(m.take(i + 1)[0] == m[0]);
        assert(m.take(i)[0] == m[0]);
        assert(header_lines_text(m.take(i + 1)) == header_line_text(m[0]) + header_lines_text(
            r.take(i),
        ));
        assert(header_lines_text(m.take(i)) == header_line_text(m[0]) + header_lines_text(
            r.take(i - 1),
        ));
        assert(r[i - 1] == m[i]);
        assert(header_line_text(m[0]) + (header_lines_text(r.take(i - 1)) + header_line_text(m[i]))
            =~= (header_line_text(m[0]) + header_lines_text(r.take(i - 1))) + header_line_text(
            m[i],
        ));
    }
}

/// A string-to-string map that remembers where each key first appeared.
#[derive(Debug)]
pub struct StrMap {
    entries: Vec<(String, String)>,
}

impl View for StrMap {
    type V = Entries;

    closed spec fn view(&self) -> Entries {
        self.entries@.map_values(|p: (String, String)| (p.0@, p.1@))
    }
}

impl StrMap {
    /// An empty map.
    pub fn new() -> (m: StrMap)
        ensures
            m@ == Seq::<(Seq<char>, Seq<char>)>::empty(),
    {
        let m = StrMap { entries: Vec::new() };
        proof {
            assert(m@ =~= Seq::<(Seq<char>, Seq<char>)>::empty());
        }
        m
    }

    /// How many entries the map holds.
    pub fn len(&self) -> (n: usize)
        ensures
            n == self@.len(),
    {
        self.entries.len()
    }

    /// The key stored at position `i`.
    pub fn key_at(&self, i: usize) -> (r: &String)
        requires
            i < self@.len(),
        ensures
            r@ == self@[i as int].0,
    {
        &self.entries[i].0
    }

    /// The value stored at position `i`.
    pub fn val_at(&self, i: usize) -> (r: &String)
        requires
            i < self@.len(),
        ensures
            r@ == self@[i as int].1,
    {
        &self.entries[i].1
    }

    /// Looks `k` up, returning a copy of its value.
    pub fn get(&self, k: &str) -> (r: Option<String>)
        ensures
            match r {
                Some(v) => map_has(self@, k@) && v@ == map_val(self@, k@),
                None => !map_has(self@, k@),
            },
    {
        let n: usize = self.entries.len();
        let mut i: usize = 0;
        while i < n
            invariant
                i <= n,
                n == self@.len(),
                n == self.entries@.len(),
                self@ == self.entries@.map_values(|p: (String, String)| (p.0@, p.1@)),
                key_idx(self@, k@) == key_idx_from(self@, k@, i as int),
            decreases n - i,
        {
            if str_eq(self.entries[i].0.as_str(), k) {
                proof {
                    assert(self@[i as int].0 == k@);
                    lemma_key_idx_from_props(self@, k@, i as int);
                }
                return Some(self.entries[i].1.clone());
            }
            proof {
                assert(self@[i as int].0 != k@);
            }
            i = i + 1;
        }
        None
    }

    /// Whether the map holds `k`.
    pub fn contains(&self, k: &str) -> (b: bool)
        ensures
            b == map_has(self@, k@),
    {
        let r = self.get(k);
        r.is_some()
    }

    /// Appends every entry to `out` as a wire header line.
    pub fn append_lines(&self, out: &mut String)
        ensures
            final(out)@ == old(out)@ + header_lines_text(self@),
    {
        let n: usize = self.len();
        proof {
            assert(self@.take(0) =~= Seq::<(Seq<char>, Seq<char>)>::empty());
            assert(old(out)@ + header_lines_text(self@.take(0)) =~= out@);
        }
        let mut i: usize = 0;
        while i < n
            invariant
                i <= n,
                n == self@.len(),
                out@ == old(out)@ + header_lines_text(self@.take(i as int)),
            decreases n - i,
        {
            out.append(self.key_at(i).as_str());
            out.append(": ");
            out.append(self.val_at(i).as_str());
            out.append("\r\n");
            proof {
                reveal_strlit(": ");
                reveal_strlit("\r\n");
                assert(": "@ =~= seq![':', ' ']);
                assert("\r\n"@ =~= seq!['\r', '\n']);
                lemma_header_lines_take_step(self@, i as int);
                assert(out@ =~= old(out)@ + header_lines_text(self@.take(i + 1)));
            }
            i = i + 1;
        }
        proof {
            assert(self@.take(n as int) =~= self@);
        }
    }

    /// Stores `v` under `k`, replacing in place or appending at the end.
    pub fn set(&mut self, k: String, v: String)
        ensures
            final(self)@ == map_set(old(self)@, k@, v@),
    {
        let n: usize = self.entries.len();
        let mut i: usize = 0;
        while i < n
            invariant
                i <= n,
                n == self@.len(),
                n == self.entries@.len(),
                self == old(self),
                self@ == self.entries@.map_values(|p: (String, String)| (p.0@, p.1@)),
                key_idx(self@, k@) == key_idx_from(self@, k@, i as int),
            decreases n - i,
        {
            if str_eq(self.entries[i].0.as_str(), k.as_str()) {
                proof {
                    assert(self@[i as int].0 == k@);
                    lemma_key_idx_from_props(self@, k@, i as int);
                }
                self.entries.remove(i);
                self.entries.insert(i, (k, v));
                proof {
                    assert(self@ =~= old(self)@.update(i as int, (k@, v@)));
                }
                return ;
            }
            proof {
                assert(self@[i as int].0 != k@);
            }
            i = i + 1;
        }
        self.entries.push((k, v));
        proof {
            assert(self@ =~= old(self)@.push((k@, v@)));
        }
    }
}

} // verus!
