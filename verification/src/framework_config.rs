//! Opaque configuration owned by framework integrations.
//!
//! Core configuration and solving code only transport these string options.
//! Their meaning is interpreted by the corresponding framework module.
use vstd::prelude::*;

use crate::collections::{key_index, keys_distinct, lemma_key_index, lookup};
use crate::text::{
    chars_eq, chars_lt, chars_of, lemma_seq_lt_irreflexive, lemma_seq_lt_total,
    lemma_seq_lt_transitive, seq_lt, string_of,
};

verus! {

/// Keys in strictly increasing order (and so distinct).
pub open spec fn keys_sorted<V>(s: Seq<(String, V)>) -> bool {
    forall|i: int, j: int| 0 <= i < j < s.len() ==> seq_lt(s[i].0@, s[j].0@)
}

/// The map that a sequence of entries stands for: each key to the value of
/// its first entry.
pub open spec fn table_map<V>(s: Seq<(Seq<char>, V)>) -> Map<Seq<char>, V> {
    Map::new(|k: Seq<char>| lookup(s, k) is Some, |k: Seq<char>| lookup(s, k)->0)
}

/// The options of one framework, as character sequences.
pub open spec fn options_view(opts: Seq<(String, String)>) -> Seq<(Seq<char>, Seq<char>)> {
    opts.map_values(|p: (String, String)| (p.0@, p.1@))
}

/// The frameworks, each with the map of its options.
pub open spec fn frameworks_view(fw: Seq<(String, Vec<(String, String)>)>) -> Seq<
    (Seq<char>, Map<Seq<char>, Seq<char>>),
> {
    fw.map_values(|p: (String, Vec<(String, String)>)| (p.0@, table_map(options_view(p.1@))))
}

/// Sorted keys are distinct.
proof fn lemma_sorted_distinct<V, W>(s: Seq<(String, V)>, v: Seq<(Seq<char>, W)>)
    requires
        keys_sorted(s),
        s.len() == v.len(),
        forall|i: int| 0 <= i < s.len() ==> #[trigger] v[i].0 == s[i].0@,
    ensures
        keys_distinct(v),
{
    assert forall|i: int, j: int| 0 <= i < j < v.len() implies v[i].0 != v[j].0 by {
        lemma_seq_lt_irreflexive(s[i].0@);
    }
}

/// For entries with distinct keys, the map holds exactly the entries.
proof fn lemma_table_map<V>(s: Seq<(Seq<char>, V)>)
    requires
        keys_distinct(s),
    ensures
        forall|i: int|
            0 <= i < s.len() ==> #[trigger] table_map(s).contains_key(s[i].0) && table_map(s)[s[i].0]
                == s[i].1,
        forall|k: Seq<char>|
            #[trigger] table_map(s).contains_key(k) ==> exists|i: int| 0 <= i < s.len() && s[i].0 == k,
{
    assert forall|i: int| 0 <= i < s.len() implies #[trigger] table_map(s).contains_key(s[i].0)
        && table_map(s)[s[i].0] == s[i].1 by {
        lemma_key_index(s, s[i].0);
        let j = key_index(s, s[i].0);
        if j != i {
            assert(s[j].0 == s[i].0);
        }
    }
    assert forall|k: Seq<char>| #[trigger] table_map(s).contains_key(k) implies exists|i: int|
        0 <= i < s.len() && s[i].0 == k by {
        lemma_key_index(s, k);
        let j = key_index(s, k);
        assert(s[j].0 == k);
    }
}

/// Two sequences with distinct keys and the same entries, up to order, stand
/// for the same map.
proof fn lemma_table_map_eq<V>(s: Seq<(Seq<char>, V)>, m: Map<Seq<char>, V>)
    requires
        keys_distinct(s),
        forall|i: int| 0 <= i < s.len() ==> #[trigger] m.contains_key(s[i].0) && m[s[i].0] == s[i].1,
        forall|k: Seq<char>|
            #[trigger] m.contains_key(k) ==> exists|i: int| 0 <= i < s.len() && s[i].0 == k,
    ensures
        table_map(s) == m,
{
    lemma_table_map(s);
    assert forall|k: Seq<char>| table_map(s).contains_key(k) <==> m.contains_key(k) by {
        if m.contains_key(k) {
            let i = choose|i: int| 0 <= i < s.len() && s[i].0 == k;
            assert(table_map(s).contains_key(s[i].0));
        }
        if table_map(s).contains_key(k) {
            let i = choose|i: int| 0 <= i < s.len() && s[i].0 == k;
            assert(m.contains_key(s[i].0));
        }
    }
    assert forall|k: Seq<char>| #[trigger] table_map(s).contains_key(k) implies table_map(s)[k] == m[k] by {
        let i = choose|i: int| 0 <= i < s.len() && s[i].0 == k;
        assert(table_map(s)[s[i].0] == s[i].1);
        assert(m.contains_key(s[i].0));
    }
    assert(table_map(s) =~= m);
}

/// Where `k` belongs in a table with sorted keys: the first position whose key
/// is not before `k`, and whether that key is `k`.
fn find_slot<V>(s: &Vec<(String, V)>, k: &Vec<char>) -> (r: (usize, bool))
    requires
        keys_sorted(s@),
    ensures
        r.0 <= s@.len(),
        forall|j: int| 0 <= j < r.0 ==> seq_lt((#[trigger] s@[j]).0@, k@),
        r.1 <==> (r.0 < s@.len() && s@[r.0 as int].0@ == k@),
        r.0 < s@.len() && !r.1 ==> seq_lt(k@, s@[r.0 as int].0@),
{
    let mut i: usize = 0;
    while i < s.len()
        invariant
            i <= s@.len(),
            forall|j: int| 0 <= j < i ==> seq_lt((#[trigger] s@[j]).0@, k@),
        decreases s@.len() - i,
    {
        let key = chars_of(s[i].0.as_str());
        if !chars_lt(&key, k) {
            let found = chars_eq(&key, k);
            proof {
                if !found {
                    lemma_seq_lt_total(key@, k@);
                }
            }
            return (i, found);
        }
        i = i + 1;
    }
    (i, false)
}

/// Inserting `x` at `pos`, where it sits between its neighbours, keeps the keys sorted.
proof fn lemma_insert_sorted<V>(s: Seq<(String, V)>, pos: int, x: (String, V))
    requires
        keys_sorted(s),
        0 <= pos <= s.len(),
        forall|j: int| 0 <= j < pos ==> seq_lt((#[trigger] s[j]).0@, x.0@),
        pos < s.len() ==> seq_lt(x.0@, s[pos].0@),
    ensures
        keys_sorted(s.insert(pos, x)),
{
    let t = s.insert(pos, x);
    s.insert_ensures(pos, x);
    assert forall|i: int, j: int| 0 <= i < j < t.len() implies seq_lt(t[i].0@, t[j].0@) by {
        if j < pos {
        } else if j == pos {
        } else if i < pos {
            assert(t[j] == s[j - 1]);
            if j - 1 == pos {
                lemma_seq_lt_transitive(s[i].0@, x.0@, s[pos].0@);
            } else {
                lemma_seq_lt_transitive(s[i].0@, x.0@, s[pos].0@);
                lemma_seq_lt_transitive(s[i].0@, s[pos].0@, s[j - 1].0@);
            }
        } else if i == pos {
            assert(t[j] == s[j - 1]);
            if j - 1 > pos {
                lemma_seq_lt_transitive(x.0@, s[pos].0@, s[j - 1].0@);
            }
        } else {
            assert(t[i] == s[i - 1]);
            assert(t[j] == s[j - 1]);
        }
    }
}

/// The frameworks are held sorted by name, as are the options of each.
pub open spec fn fw_sorted(fw: Seq<(String, Vec<(String, String)>)>) -> bool {
    &&& keys_sorted(fw)
    &&& forall|i: int| 0 <= i < fw.len() ==> keys_sorted((#[trigger] fw[i]).1@)
}

/// The map that a framework table stands for.
pub open spec fn fw_map(fw: Seq<(String, Vec<(String, String)>)>) -> Map<
    Seq<char>,
    Map<Seq<char>, Seq<char>>,
> {
    table_map(frameworks_view(fw))
}

/// The map of a sorted framework table holds exactly its entries.
proof fn lemma_fw_map(fw: Seq<(String, Vec<(String, String)>)>)
    requires
        fw_sorted(fw),
    ensures
        forall|i: int|
            0 <= i < fw.len() ==> #[trigger] fw_map(fw).contains_key(fw[i].0@) && fw_map(fw)[fw[i].0@]
                == table_map(options_view(fw[i].1@)),
        forall|k: Seq<char>|
            #[trigger] fw_map(fw).contains_key(k) ==> exists|i: int| 0 <= i < fw.len() && fw[i].0@ == k,
        forall|i: int| 0 <= i < fw.len() ==> keys_distinct(options_view((#[trigger] fw[i]).1@)),
{
    let v = frameworks_view(fw);
    lemma_sorted_distinct(fw, v);
    lemma_table_map(v);
    assert forall|i: int| 0 <= i < fw.len() implies keys_distinct(options_view((#[trigger] fw[i]).1@)) by {
        lemma_sorted_distinct(fw[i].1@, options_view(fw[i].1@));
    }
    assert forall|i: int| 0 <= i < fw.len() implies #[trigger] fw_map(fw).contains_key(fw[i].0@)
        && fw_map(fw)[fw[i].0@] == table_map(options_view(fw[i].1@)) by {
        assert(v[i].0 == fw[i].0@);
    }
    assert forall|k: Seq<char>| #[trigger] fw_map(fw).contains_key(k) implies exists|i: int|
        0 <= i < fw.len() && fw[i].0@ == k by {
        let i = choose|i: int| 0 <= i < v.len() && v[i].0 == k;
        assert(fw[i].0@ == k);
    }
}

/// Makes sure `framework` has an entry, empty when it had none; returns
/// the entry's position.
fn framework_slot(fw: &mut Vec<(String, Vec<(String, String)>)>, framework: &str) -> (r: usize)
    requires
        fw_sorted(old(fw)@),
    ensures
        fw_sorted(final(fw)@),
        fw_map(final(fw)@) == fw_map(old(fw)@).insert(
            framework@,
            if fw_map(old(fw)@).contains_key(framework@) {
                fw_map(old(fw)@)[framework@]
            } else {
                Map::empty()
            },
        ),
        r < final(fw)@.len(),
        final(fw)@[r as int].0@ == framework@,
        fw_map(old(fw)@).contains_key(framework@) ==> final(fw)@[r as int].1@ == old(fw)@[r as int].1@,
        !fw_map(old(fw)@).contains_key(framework@) ==> final(fw)@[r as int].1@.len() == 0,
{
    proof {
        lemma_fw_map(fw@);
    }
    let ghost old_fw = fw@;
    let ghost old_view = fw_map(fw@);
    let f = chars_of(framework);
    let (i, found) = find_slot(fw, &f);
    if found {
        proof {
            assert(fw_map(fw@) =~= old_view.insert(framework@, old_view[framework@]));
        }
        return i;
    }
    proof {
        if old_view.contains_key(framework@) {
            let j = choose|j: int| 0 <= j < old_fw.len() && old_fw[j].0@ == framework@;
            if j < i {
                lemma_seq_lt_irreflexive(framework@);
            } else if j > i {
                lemma_seq_lt_transitive(framework@, old_fw[i as int].0@, framework@);
                lemma_seq_lt_irreflexive(framework@);
            }
        }
    }
    let entry: (String, Vec<(String, String)>) = (string_of(&f), Vec::new());
    proof {
        lemma_insert_sorted(old_fw, i as int, entry);
        old_fw.insert_ensures(i as int, entry);
    }
    fw.insert(i, entry);
    proof {
        let nf = fw@;
        assert(nf == old_fw.insert(i as int, entry));
        assert(keys_sorted(nf));
        assert forall|q: int| 0 <= q < nf.len() implies keys_sorted((#[trigger] nf[q]).1@) by {
            if q < i {
                assert(nf[q] == old_fw[q]);
            } else if q > i {
                assert(nf[q] == old_fw[q - 1]);
            }
        }
        let v = frameworks_view(nf);
        lemma_sorted_distinct(nf, v);
        let m = old_view.insert(framework@, Map::empty());
        assert(options_view(entry.1@) =~= Seq::<(Seq<char>, Seq<char>)>::empty());
        assert(table_map(options_view(entry.1@)) =~= Map::<Seq<char>, Seq<char>>::empty());
        assert forall|q: int| 0 <= q < v.len() implies #[trigger] m.contains_key(v[q].0) && m[v[q].0]
            == v[q].1 by {
            if q < i {
                assert(nf[q] == old_fw[q]);
                assert(old_view.contains_key(old_fw[q].0@));
                lemma_seq_lt_irreflexive(framework@);
            } else if q > i {
                assert(nf[q] == old_fw[q - 1]);
                assert(old_view.contains_key(old_fw[q - 1].0@));
                if old_fw[q - 1].0@ == framework@ {
                    if q - 1 == i {
                    } else {
                        lemma_seq_lt_transitive(framework@, old_fw[i as int].0@, old_fw[q - 1].0@);
                    }
                    lemma_seq_lt_irreflexive(framework@);
                }
            }
        }
        assert forall|k: Seq<char>| #[trigger] m.contains_key(k) implies exists|q: int|
            0 <= q < v.len() && v[q].0 == k by {
            if k == framework@ {
                assert(v[i as int].0 == k);
            } else {
                let j = choose|j: int| 0 <= j < old_fw.len() && old_fw[j].0@ == k;
                if j < i {
                    assert(v[j].0 == k);
                } else {
                    assert(v[j + 1].0 == k);
                }
            }
        }
        lemma_table_map_eq(v, m);
    }
    i
}

/// The value of option `o` of framework `f` in a configuration view.
pub open spec fn option_of(
    m: Map<Seq<char>, Map<Seq<char>, Seq<char>>>,
    f: Seq<char>,
    o: Seq<char>,
) -> Option<Seq<char>> {
    if m.contains_key(f) && m[f].contains_key(o) {
        Some(m[f][o])
    } else {
        None
    }
}

/// A configuration view with option `o` of framework `f` set to `v`, the
/// framework's other options kept.
pub open spec fn with_option(
    m: Map<Seq<char>, Map<Seq<char>, Seq<char>>>,
    f: Seq<char>,
    o: Seq<char>,
    v: Seq<char>,
) -> Map<Seq<char>, Map<Seq<char>, Seq<char>>> {
    m.insert(
        f,
        (if m.contains_key(f) {
            m[f]
        } else {
            Map::empty()
        }).insert(o, v),
    )
}

/// Opaque configuration owned by framework integrations: for each framework,
/// its string options.
#[derive(Debug, PartialEq, Eq)]
pub struct FrameworkConfig {
    frameworks: Vec<(String, Vec<(String, String)>)>,
}

impl View for FrameworkConfig {
    type V = Map<Seq<char>, Map<Seq<char>, Seq<char>>>;

    /// Framework name to the map from option name to value.
    closed spec fn view(&self) -> Self::V {
        fw_map(self.frameworks@)
    }
}

impl FrameworkConfig {
    /// The frameworks are held sorted by name, as are the options of each.
    #[verifier::type_invariant]
    closed spec fn sorted(self) -> bool {
        fw_sorted(self.frameworks@)
    }

    /// A configuration with no framework.
    pub fn new() -> (r: Self)
        ensures
            r@ == Map::<Seq<char>, Map<Seq<char>, Seq<char>>>::empty(),
    {
        let r = FrameworkConfig { frameworks: Vec::new() };
        proof {
            assert(r@ =~= Map::<Seq<char>, Map<Seq<char>, Seq<char>>>::empty());
        }
        r
    }

    /// The value of `option` for `framework`, if it is set.
    pub fn option(&self, framework: &str, option: &str) -> (r: Option<&str>)
        ensures
            option_of(self@, framework@, option@) == match r {
                Some(v) => Some(v@),
                None => None,
            },
    {
        proof {
            use_type_invariant(self);
            lemma_fw_map(self.frameworks@);
        }
        let f = chars_of(framework);
        let (i, found) = find_slot(&self.frameworks, &f);
        if !found {
            proof {
                if self@.contains_key(framework@) {
                    let j = choose|j: int|
                        0 <= j < self.frameworks@.len() && self.frameworks@[j].0@ == framework@;
                    if j < i {
                        lemma_seq_lt_irreflexive(framework@);
                    } else if j > i {
                        lemma_seq_lt_transitive(framework@, self.frameworks@[i as int].0@, framework@);
                        lemma_seq_lt_irreflexive(framework@);
                    }
                }
            }
            return None;
        }
        let opts = &self.frameworks[i].1;
        let o = chars_of(option);
        let (j, found_option) = find_slot(opts, &o);
        proof {
            let ov = options_view(opts@);
            lemma_table_map(ov);
            assert(self@ == fw_map(self.frameworks@));
            assert(fw_map(self.frameworks@).contains_key(self.frameworks@[i as int].0@));
            assert(self@[framework@] == table_map(ov));
            if !found_option && table_map(ov).contains_key(option@) {
                let q = choose|q: int| 0 <= q < ov.len() && ov[q].0 == option@;
                assert(opts@[q].0@ == option@);
                if q < j {
                    lemma_seq_lt_irreflexive(option@);
                } else if q > j {
                    lemma_seq_lt_transitive(option@, opts@[j as int].0@, option@);
                    lemma_seq_lt_irreflexive(option@);
                }
            }
            if found_option {
                assert(ov[j as int].0 == option@);
            }
        }
        if found_option {
            Some(opts[j].1.as_str())
        } else {
            None
        }
    }

    /// Sets `option` of `framework` to `value`, adding the framework when it
    /// has no entry yet.
    pub fn set_option(&mut self, framework: &str, option: &str, value: String)
        ensures
            final(self)@ == with_option(old(self)@, framework@, option@, value@),
    {
        let ghost old_view = self@;
        proof {
            use_type_invariant(&*self);
        }
        let mut fw: Vec<(String, Vec<(String, String)>)> = Vec::new();
        std::mem::swap(&mut fw, &mut self.frameworks);
        let i = framework_slot(&mut fw, framework);
        proof {
            lemma_fw_map(fw@);
        }
        let ghost mid_fw = fw@;
        let ghost mid_view = fw_map(fw@);
        let o = chars_of(option);
        let (j, found) = find_slot(&fw[i].1, &o);
        let mut entry = fw.remove(i);
        let ghost old_opts = entry.1@;
        let ghost inner = table_map(options_view(old_opts));
        proof {
            lemma_sorted_distinct(old_opts, options_view(old_opts));
            lemma_table_map(options_view(old_opts));
        }
        if found {
            let item = (entry.1[j].0.clone(), value);
            entry.1.set(j, item);
        } else {
            let item = (string_of(&o), value);
            proof {
                lemma_insert_sorted(old_opts, j as int, item);
            }
            entry.1.insert(j, item);
        }
        let ghost new_opts = entry.1@;
        proof {
            // the options stay sorted, and stand for `inner` with `option` set
            let ov = options_view(new_opts);
            if found {
                assert forall|a: int, b: int| 0 <= a < b < new_opts.len() implies seq_lt(
                    new_opts[a].0@,
                    new_opts[b].0@,
                ) by {
                    assert(new_opts[a].0@ == old_opts[a].0@);
                    assert(new_opts[b].0@ == old_opts[b].0@);
                }
            } else {
                old_opts.insert_ensures(j as int, new_opts[j as int]);
            }
            lemma_sorted_distinct(new_opts, ov);
            let m = inner.insert(option@, value@);
            assert forall|q: int| 0 <= q < ov.len() implies #[trigger] m.contains_key(ov[q].0) && m[ov[q].0]
                == ov[q].1 by {
                if found {
                    if q != j {
                        assert(new_opts[q] == old_opts[q]);
                        assert(inner.contains_key(options_view(old_opts)[q].0));
                        assert(options_view(old_opts)[j as int].0 == option@);
                    }
                } else if q < j {
                    assert(new_opts[q] == old_opts[q]);
                    assert(inner.contains_key(options_view(old_opts)[q].0));
                    lemma_seq_lt_irreflexive(option@);
                } else if q > j {
                    assert(new_opts[q] == old_opts[q - 1]);
                    assert(inner.contains_key(options_view(old_opts)[q - 1].0));
                    if old_opts[q - 1].0@ == option@ {
                        if q - 1 != j {
                            lemma_seq_lt_transitive(option@, old_opts[j as int].0@, old_opts[q - 1].0@);
                        }
                        lemma_seq_lt_irreflexive(option@);
                    }
                }
            }
            assert forall|k: Seq<char>| #[trigger] m.contains_key(k) implies exists|q: int|
                0 <= q < ov.len() && ov[q].0 == k by {
                if k == option@ {
                    assert(ov[j as int].0 == k);
                } else {
                    let p = choose|p: int| 0 <= p < old_opts.len() && options_view(old_opts)[p].0 == k;
                    if found || p < j {
                        assert(ov[p].0 == k);
                    } else {
                        assert(ov[p + 1].0 == k);
                    }
                }
            }
            lemma_table_map_eq(ov, m);
        }
        fw.insert(i, entry);
        proof {
            let nf = fw@;
            assert(nf =~= mid_fw.update(i as int, nf[i as int]));
            assert(keys_sorted(nf)) by {
                assert forall|a: int, b: int| 0 <= a < b < nf.len() implies seq_lt(nf[a].0@, nf[b].0@) by {
                    assert(nf[a].0@ == mid_fw[a].0@);
                    assert(nf[b].0@ == mid_fw[b].0@);
                }
            }
            assert forall|q: int| 0 <= q < nf.len() implies keys_sorted((#[trigger] nf[q]).1@) by {
                if q != i {
                    assert(nf[q] == mid_fw[q]);
                }
            }
            let v = frameworks_view(nf);
            lemma_sorted_distinct(nf, v);
            let mv = frameworks_view(mid_fw);
            lemma_sorted_distinct(mid_fw, mv);
            lemma_table_map(mv);
            let m = mid_view.insert(framework@, inner.insert(option@, value@));
            assert(mid_view.contains_key(mid_fw[i as int].0@));
            assert(inner == mid_view[framework@]);
            assert forall|q: int| 0 <= q < v.len() implies #[trigger] m.contains_key(v[q].0) && m[v[q].0]
                == v[q].1 by {
                if q != i {
                    assert(nf[q] == mid_fw[q]);
                    assert(mv[q] == v[q]);
                    assert(table_map(mv).contains_key(mv[q].0));
                    assert(v[q].0 != v[i as int].0);
                } else {
                    assert(nf[q].1@ == new_opts);
                }
            }
            assert forall|k: Seq<char>| #[trigger] m.contains_key(k) implies exists|q: int|
                0 <= q < v.len() && v[q].0 == k by {
                if k == framework@ {
                    assert(v[i as int].0 == k);
                } else {
                    let p = choose|p: int| 0 <= p < mv.len() && mv[p].0 == k;
                    assert(v[p].0 == k);
                }
            }
            lemma_table_map_eq(v, m);
            assert(mid_view == old_view.insert(
                framework@,
                if old_view.contains_key(framework@) {
                    old_view[framework@]
                } else {
                    Map::empty()
                },
            ));
            assert(fw_map(fw@) =~= old_view.insert(
                framework@,
                (if old_view.contains_key(framework@) {
                    old_view[framework@]
                } else {
                    Map::empty()
                }).insert(option@, value@),
            ));
        }
        self.frameworks = fw;
    }

    /// The frameworks, sorted by name, each with its options sorted by name.
    pub fn frameworks(&self) -> (r: &Vec<(String, Vec<(String, String)>)>)
        ensures
            fw_map(r@) == self@,
            fw_sorted(r@),
    {
        proof {
            use_type_invariant(self);
        }
        &self.frameworks
    }

    /// Makes sure `framework` has an entry, with no option when it had none.
    pub fn add_framework(&mut self, framework: &str)
        ensures
            final(self)@ == old(self)@.insert(
                framework@,
                if old(self)@.contains_key(framework@) {
                    old(self)@[framework@]
                } else {
                    Map::empty()
                },
            ),
    {
        proof {
            use_type_invariant(&*self);
        }
        let mut fw: Vec<(String, Vec<(String, String)>)> = Vec::new();
        std::mem::swap(&mut fw, &mut self.frameworks);
        let _ = framework_slot(&mut fw, framework);
        self.frameworks = fw;
    }

    /// Whether no framework has an entry.
    pub fn is_empty(&self) -> (r: bool)
        ensures
            r == (self@ == Map::<Seq<char>, Map<Seq<char>, Seq<char>>>::empty()),
    {
        proof {
            use_type_invariant(self);
            lemma_fw_map(self.frameworks@);
            if self.frameworks@.len() > 0 {
                assert(self@.contains_key(self.frameworks@[0].0@));
                assert(!Map::<Seq<char>, Map<Seq<char>, Seq<char>>>::empty().contains_key(
                    self.frameworks@[0].0@,
                ));
            } else {
                assert(self@ =~= Map::<Seq<char>, Map<Seq<char>, Seq<char>>>::empty());
            }
        }
        self.frameworks.len() == 0
    }
}

/// A copy of the options of one framework.
fn copy_options(opts: &Vec<(String, String)>) -> (r: Vec<(String, String)>)
    ensures
        options_view(r@) == options_view(opts@),
        r@.len() == opts@.len(),
        forall|i: int| 0 <= i < r@.len() ==> (#[trigger] r@[i]).0@ == opts@[i].0@,
{
    let mut r: Vec<(String, String)> = Vec::new();
    let mut i: usize = 0;
    while i < opts.len()
        invariant
            i <= opts@.len(),
            r@.len() == i,
            forall|k: int| 0 <= k < i ==> (#[trigger] r@[k]).0@ == opts@[k].0@ && r@[k].1@ == opts@[k].1@,
        decreases opts@.len() - i,
    {
        r.push((opts[i].0.clone(), opts[i].1.clone()));
        i = i + 1;
    }
    proof {
        assert(options_view(r@) =~= options_view(opts@));
    }
    r
}

impl Clone for FrameworkConfig {
    /// A copy with the same frameworks and options.
    fn clone(&self) -> (r: Self)
        ensures
            r@ == self@,
    {
        proof {
            use_type_invariant(self);
        }
        let mut fw: Vec<(String, Vec<(String, String)>)> = Vec::new();
        let mut i: usize = 0;
        while i < self.frameworks.len()
            invariant
                i <= self.frameworks@.len(),
                fw@.len() == i,
                forall|k: int|
                    0 <= k < i ==> (#[trigger] fw@[k]).0@ == self.frameworks@[k].0@ && options_view(
                        fw@[k].1@,
                    ) == options_view(self.frameworks@[k].1@) && fw@[k].1@.len()
                        == self.frameworks@[k].1@.len() && forall|q: int|
                        0 <= q < fw@[k].1@.len() ==> fw@[k].1@[q].0@ == self.frameworks@[k].1@[q].0@,
            decreases self.frameworks@.len() - i,
        {
            fw.push((self.frameworks[i].0.clone(), copy_options(&self.frameworks[i].1)));
            i = i + 1;
        }
        proof {
            assert(frameworks_view(fw@) =~= frameworks_view(self.frameworks@));
            assert forall|a: int, b: int| 0 <= a < b < fw@.len() implies seq_lt(fw@[a].0@, fw@[b].0@) by {}
            assert forall|k: int| 0 <= k < fw@.len() implies keys_sorted((#[trigger] fw@[k]).1@) by {
                assert(keys_sorted(self.frameworks@[k].1@));
                assert forall|a: int, b: int| 0 <= a < b < fw@[k].1@.len() implies seq_lt(
                    fw@[k].1@[a].0@,
                    fw@[k].1@[b].0@,
                ) by {
                    assert(fw@[k].1@[a].0@ == self.frameworks@[k].1@[a].0@);
                    assert(fw@[k].1@[b].0@ == self.frameworks@[k].1@[b].0@);
                }
            }
        }
        FrameworkConfig { frameworks: fw }
    }
}

impl Default for FrameworkConfig {
    /// A configuration with no framework.
    fn default() -> (r: Self)
        ensures
            r@ == Map::<Seq<char>, Map<Seq<char>, Seq<char>>>::empty(),
    {
        FrameworkConfig::new()
    }
}

/// Reading an option back gives the value last set for it.
pub proof fn law_option_reads_back_set(
    m: Map<Seq<char>, Map<Seq<char>, Seq<char>>>,
    f: Seq<char>,
    o: Seq<char>,
    v: Seq<char>,
)
    ensures
        option_of(with_option(m, f, o, v), f, o) == Some(v),
{
}

/// Setting an option leaves every other option, of that framework or of
/// another, as it was.
pub proof fn law_set_option_keeps_others(
    m: Map<Seq<char>, Map<Seq<char>, Seq<char>>>,
    f: Seq<char>,
    o: Seq<char>,
    v: Seq<char>,
    f2: Seq<char>,
    o2: Seq<char>,
)
    requires
        f2 != f || o2 != o,
    ensures
        option_of(with_option(m, f, o, v), f2, o2) == option_of(m, f2, o2),
{
}

/// A configuration with an option set is not empty.
pub proof fn law_set_option_not_empty(
    m: Map<Seq<char>, Map<Seq<char>, Seq<char>>>,
    f: Seq<char>,
    o: Seq<char>,
    v: Seq<char>,
)
    ensures
        with_option(m, f, o, v) != Map::<Seq<char>, Map<Seq<char>, Seq<char>>>::empty(),
{
    assert(with_option(m, f, o, v).contains_key(f));
}

/// Setting an option twice is setting it to the second value.
pub proof fn law_set_option_last_wins(
    m: Map<Seq<char>, Map<Seq<char>, Seq<char>>>,
    f: Seq<char>,
    o: Seq<char>,
    v1: Seq<char>,
    v2: Seq<char>,
)
    ensures
        with_option(with_option(m, f, o, v1), f, o, v2) == with_option(m, f, o, v2),
{
    assert(with_option(m, f, o, v1)[f].insert(o, v2) =~= (if m.contains_key(f) {
        m[f]
    } else {
        Map::empty()
    }).insert(o, v2));
    assert(with_option(with_option(m, f, o, v1), f, o, v2) =~= with_option(m, f, o, v2));
}

/// A configuration view after `set_option` calls, in order, each setting
/// option `.1` of framework `.0` to `.2`.
pub open spec fn with_options(
    m: Map<Seq<char>, Map<Seq<char>, Seq<char>>>,
    sets: Seq<(Seq<char>, Seq<char>, Seq<char>)>,
) -> Map<Seq<char>, Map<Seq<char>, Seq<char>>>
    decreases sets.len(),
{
    if sets.len() == 0 {
        m
    } else {
        let last = sets.last();
        with_option(with_options(m, sets.drop_last()), last.0, last.1, last.2)
    }
}

/// The value of the last of `sets` that sets option `o` of framework `f`.
pub open spec fn last_set(sets: Seq<(Seq<char>, Seq<char>, Seq<char>)>, f: Seq<char>, o: Seq<char>) -> Option<
    Seq<char>,
>
    decreases sets.len(),
{
    if sets.len() == 0 {
        None
    } else if sets.last().0 == f && sets.last().1 == o {
        Some(sets.last().2)
    } else {
        last_set(sets.drop_last(), f, o)
    }
}

/// After any sequence of `set_option` calls, an option reads as the value of
/// the last call that set it, and as before when no call set it (so as
/// unset, from a new configuration).
pub proof fn law_last_write_wins(
    m: Map<Seq<char>, Map<Seq<char>, Seq<char>>>,
    sets: Seq<(Seq<char>, Seq<char>, Seq<char>)>,
    f: Seq<char>,
    o: Seq<char>,
)
    ensures
        option_of(with_options(m, sets), f, o) == match last_set(sets, f, o) {
            Some(v) => Some(v),
            None => option_of(m, f, o),
        },
    decreases sets.len(),
{
    if sets.len() > 0 {
        let last = sets.last();
        law_last_write_wins(m, sets.drop_last(), f, o);
        let prev = with_options(m, sets.drop_last());
        if last.0 == f && last.1 == o {
            law_option_reads_back_set(prev, f, o, last.2);
        } else {
            law_set_option_keeps_others(prev, last.0, last.1, last.2, f, o);
        }
    }
}

} // verus!
