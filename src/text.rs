use vstd::prelude::*;

verus! {

/// Strict order on characters by code point.
pub open spec fn char_lt(a: char, b: char) -> bool {
    (a as u32) < (b as u32)
}

/// Lexicographic order on character sequences; a proper prefix comes first.
/// On valid text this is the order of `String`'s `Ord` (UTF-8 keeps code
/// point order byte by byte).
pub open spec fn seq_lt(a: Seq<char>, b: Seq<char>) -> bool
    decreases a.len(),
{
    if b.len() == 0 {
        false
    } else if a.len() == 0 {
        true
    } else if a[0] != b[0] {
        char_lt(a[0], b[0])
    } else {
        seq_lt(a.drop_first(), b.drop_first())
    }
}

pub fn char_less(a: char, b: char) -> (r: bool)
    ensures
        r == char_lt(a, b),
{
    (a as u32) < (b as u32)
}

pub fn str_less(a: &str, b: &str) -> (r: bool)
    ensures
        r == seq_lt(a@, b@),
{
    let la = a.unicode_len();
    let lb = b.unicode_len();
    let mut i: usize = 0;
    assert(a@.skip(0) =~= a@);
    assert(b@.skip(0) =~= b@);
    while i < la && i < lb
        invariant
            la == a@.len(),
            lb == b@.len(),
            i <= la,
            i <= lb,
            seq_lt(a@, b@) == seq_lt(a@.skip(i as int), b@.skip(i as int)),
        decreases la - i,
    {
        let ca = a.get_char(i);
        let cb = b.get_char(i);
        if ca != cb {
            return char_less(ca, cb);
        }
        assert(a@.skip(i as int).drop_first() =~= a@.skip(i + 1));
        assert(b@.skip(i as int).drop_first() =~= b@.skip(i + 1));
        i = i + 1;
    }
    i < lb
}

/// A strictly ascending sequence of character sequences: sorted, no repeats.
pub open spec fn sorted_unique(s: Seq<Seq<char>>) -> bool {
    forall|i: int, j: int| 0 <= i < j < s.len() ==> seq_lt(#[trigger] s[i], #[trigger] s[j])
}

pub proof fn lemma_seq_lt_irreflexive(a: Seq<char>)
    ensures
        !seq_lt(a, a),
    decreases a.len(),
{
    if a.len() > 0 {
        lemma_seq_lt_irreflexive(a.drop_first());
    }
}

pub proof fn lemma_seq_lt_total(a: Seq<char>, b: Seq<char>)
    ensures
        a != b ==> seq_lt(a, b) || seq_lt(b, a),
    decreases a.len(),
{
    if a.len() > 0 && b.len() > 0 && a[0] == b[0] {
        lemma_seq_lt_total(a.drop_first(), b.drop_first());
        if a.drop_first() == b.drop_first() {
            assert(a =~= seq![a[0]] + a.drop_first());
            assert(b =~= seq![b[0]] + b.drop_first());
        }
    } else if a.len() == 0 && b.len() == 0 {
        assert(a =~= b);
    } else if a.len() > 0 && b.len() > 0 {
        vstd::utf8::char_u32_cast(a[0], a[0] as u32);
        vstd::utf8::char_u32_cast(b[0], b[0] as u32);
    }
}

pub proof fn lemma_seq_lt_transitive(a: Seq<char>, b: Seq<char>, c: Seq<char>)
    requires
        seq_lt(a, b),
        seq_lt(b, c),
    ensures
        seq_lt(a, c),
    decreases a.len(),
{
    if a.len() > 0 && a[0] == b[0] && b[0] == c[0] {
        lemma_seq_lt_transitive(a.drop_first(), b.drop_first(), c.drop_first());
    }
}

/// Relies on std's `String::push`: the character is appended at the end.
#[verifier::external_body]
pub(crate) fn push_char(s: &mut String, c: char)
    ensures
        final(s)@ == old(s)@.push(c),
{
    s.push(c);
}

/// The items joined, with a single comma between neighbours.
pub open spec fn join_commas(items: Seq<Seq<char>>) -> Seq<char>
    decreases items.len(),
{
    if items.len() == 0 {
        Seq::empty()
    } else if items.len() == 1 {
        items[0]
    } else {
        join_commas(items.drop_last()) + seq![','] + items.last()
    }
}

/// The views of a vector of strings.
pub open spec fn views(v: Seq<String>) -> Seq<Seq<char>> {
    v.map_values(|s: String| s@)
}

pub fn join_with_commas(items: &Vec<String>) -> (r: String)
    ensures
        r@ == join_commas(views(items@)),
{
    let mut out = String::new();
    let mut i: usize = 0;
    while i < items.len()
        invariant
            i <= items.len(),
            out@ == join_commas(views(items@.take(i as int))),
        decreases items.len() - i,
    {
        if i > 0 {
            push_char(&mut out, ',');
        }
        out.append(items[i].as_str());
        assert(views(items@.take(i + 1)).drop_last() =~= views(items@.take(i as int)));
        i = i + 1;
    }
    assert(items@.take(i as int) =~= items@);
    out
}

/// Whether `t` occurs in `v`, by value.
pub fn contains_string(v: &Vec<String>, t: &str) -> (r: bool)
    ensures
        r == views(v@).contains(t@),
{
    let mut i: usize = 0;
    while i < v.len()
        invariant
            i <= v.len(),
            forall|k: int| 0 <= k < i ==> v@[k]@ != t@,
        decreases v.len() - i,
    {
        if v[i].as_str().unicode_len() == t.unicode_len() && str_equal(v[i].as_str(), t) {
            assert(views(v@)[i as int] == t@);
            return true;
        }
        i = i + 1;
    }
    false
}

pub fn str_equal(a: &str, b: &str) -> (r: bool)
    ensures
        r == (a@ == b@),
{
    let la = a.unicode_len();
    if la != b.unicode_len() {
        return false;
    }
    let mut i: usize = 0;
    while i < la
        invariant
            la == a@.len(),
            la == b@.len(),
            i <= la,
            a@.take(i as int) =~= b@.take(i as int),
        decreases la - i,
    {
        if a.get_char(i) != b.get_char(i) {
            return false;
        }
        assert(a@.take(i + 1) =~= a@.take(i as int).push(a@[i as int]));
        assert(b@.take(i + 1) =~= b@.take(i as int).push(b@[i as int]));
        i = i + 1;
    }
    assert(a@ =~= a@.take(la as int));
    assert(b@ =~= b@.take(la as int));
    true
}

/// Whether every string of `needles` occurs in `hay`.
pub fn all_in(needles: &Vec<String>, hay: &Vec<String>) -> (r: bool)
    ensures
        r == views(needles@).to_set().subset_of(views(hay@).to_set()),
{
    let mut i: usize = 0;
    while i < needles.len()
        invariant
            i <= needles.len(),
            forall|k: int| 0 <= k < i ==> views(hay@).contains(#[trigger] views(needles@)[k]),
        decreases needles.len() - i,
    {
        if !contains_string(hay, needles[i].as_str()) {
            assert(views(needles@).to_set().contains(views(needles@)[i as int]));
            return false;
        }
        i = i + 1;
    }
    assert forall|x: Seq<char>| views(needles@).to_set().contains(x) implies views(
        hay@,
    ).to_set().contains(x) by {
        let k = choose|k: int| 0 <= k < needles.len() && views(needles@)[k] == x;
        assert(views(hay@).contains(views(needles@)[k]));
    }
    true
}

/// Whether no string of `needles` occurs in `hay`.
pub fn none_in(needles: &Vec<String>, hay: &Vec<String>) -> (r: bool)
    ensures
        r == views(needles@).to_set().disjoint(views(hay@).to_set()),
{
    let mut i: usize = 0;
    while i < needles.len()
        invariant
            i <= needles.len(),
            forall|k: int| 0 <= k < i ==> !views(hay@).contains(#[trigger] views(needles@)[k]),
        decreases needles.len() - i,
    {
        if contains_string(hay, needles[i].as_str()) {
            assert(views(needles@).to_set().contains(views(needles@)[i as int]));
            assert(views(hay@).to_set().contains(views(needles@)[i as int]));
            return false;
        }
        i = i + 1;
    }
    assert forall|x: Seq<char>| views(needles@).to_set().contains(x) implies !views(
        hay@,
    ).to_set().contains(x) by {
        let k = choose|k: int| 0 <= k < needles.len() && views(needles@)[k] == x;
        assert(!views(hay@).contains(views(needles@)[k]));
    }
    true
}

/// Inserts `t` into the sorted list `v` at its place, unless it is there already.
/// Returns whether it was inserted.
pub fn insert_sorted(v: &mut Vec<String>, t: &str) -> (r: bool)
    requires
        sorted_unique(views(old(v)@)),
    ensures
        sorted_unique(views(final(v)@)),
        r == !views(old(v)@).contains(t@),
        views(final(v)@).to_set() == views(old(v)@).to_set().insert(t@),
{
    let mut k: usize = 0;
    while k < v.len() && str_less(v[k].as_str(), t)
        invariant
            k <= v.len(),
            sorted_unique(views(v@)),
            forall|i: int| 0 <= i < k ==> seq_lt(#[trigger] v@[i]@, t@),
        decreases v.len() - k,
    {
        k = k + 1;
    }
    proof {
        assert forall|i: int| 0 <= i < k implies views(v@)[i] != t@ by {
            lemma_seq_lt_irreflexive(t@);
        }
    }
    if k < v.len() && str_equal(v[k].as_str(), t) {
        assert(views(v@)[k as int] == t@);
        proof {
            assert(views(v@).to_set().insert(t@) =~= views(v@).to_set());
        }
        return false;
    }
    let ghost old_v = views(v@);
    proof {
        if k < v.len() {
            lemma_seq_lt_total(v@[k as int]@, t@);
        }
        assert forall|i: int| k <= i < old_v.len() implies seq_lt(t@, #[trigger] old_v[i]) by {
            if i > k {
                lemma_seq_lt_transitive(t@, old_v[k as int], old_v[i]);
            }
        }
        assert forall|i: int| 0 <= i < old_v.len() implies old_v[i] != t@ by {
            if i >= k {
                lemma_seq_lt_irreflexive(t@);
            }
        }
    }
    v.insert(k, t.to_owned());
    proof {
        let nv = views(v@);
        assert(nv =~= old_v.insert(k as int, t@));
        assert forall|i: int, j: int| 0 <= i < j < nv.len() implies seq_lt(
            #[trigger] nv[i],
            #[trigger] nv[j],
        ) by {
            if i < k && j > k {
                lemma_seq_lt_transitive(nv[i], t@, nv[j]);
            }
        }
        assert forall|x: Seq<char>| nv.contains(x) <==> old_v.contains(x) || x == t@ by {
            if nv.contains(x) {
                let i = choose|i: int| 0 <= i < nv.len() && nv[i] == x;
                if i > k {
                    assert(old_v[i - 1] == x);
                } else if i < k {
                    assert(old_v[i] == x);
                }
            }
            if old_v.contains(x) {
                let i = choose|i: int| 0 <= i < old_v.len() && old_v[i] == x;
                if i >= k {
                    assert(nv[i + 1] == x);
                } else {
                    assert(nv[i] == x);
                }
            }
            if x == t@ {
                assert(nv[k as int] == x);
            }
        }
        assert(nv.to_set() =~= old_v.to_set().insert(t@));
    }
    true
}

/// Removes `t` from the sorted list `v`, if it is there. Returns whether it was.
pub fn remove_sorted(v: &mut Vec<String>, t: &str) -> (r: bool)
    requires
        sorted_unique(views(old(v)@)),
    ensures
        sorted_unique(views(final(v)@)),
        r == views(old(v)@).contains(t@),
        views(final(v)@).to_set() == views(old(v)@).to_set().remove(t@),
{
    let mut k: usize = 0;
    while k < v.len()
        invariant
            k <= v.len(),
            v@ == old(v)@,
            sorted_unique(views(v@)),
            forall|i: int| 0 <= i < k ==> v@[i]@ != t@,
        decreases v.len() - k,
    {
        if str_equal(v[k].as_str(), t) {
            let ghost old_v = views(v@);
            assert(old_v[k as int] == t@);
            assert forall|i: int| 0 <= i < k implies old_v[i] != t@ by {
                assert(v@[i]@ != t@);
            }
            v.remove(k);
            proof {
                let nv = views(v@);
                assert(nv =~= old_v.remove(k as int));
                assert forall|i: int, j: int| 0 <= i < j < nv.len() implies seq_lt(
                    #[trigger] nv[i],
                    #[trigger] nv[j],
                ) by {
                    if i >= k {
                        assert(seq_lt(old_v[i + 1], old_v[j + 1]));
                    } else if j >= k {
                        assert(seq_lt(old_v[i], old_v[j + 1]));
                    }
                }
                assert forall|i: int| 0 <= i < old_v.len() && i != k implies old_v[i] != t@ by {
                    if i > k {
                        lemma_seq_lt_irreflexive(t@);
                    }
                }
                assert forall|x: Seq<char>| nv.contains(x) <==> old_v.contains(x) && x != t@ by {
                    if nv.contains(x) {
                        let i = choose|i: int| 0 <= i < nv.len() && nv[i] == x;
                        if i >= k {
                            assert(old_v[i + 1] == x);
                        } else {
                            assert(old_v[i] == x);
                        }
                    }
                    if old_v.contains(x) && x != t@ {
                        let i = choose|i: int| 0 <= i < old_v.len() && old_v[i] == x;
                        if i > k {
                            assert(nv[i - 1] == x);
                        } else {
                            assert(nv[i] == x);
                        }
                    }
                }
                assert(nv.to_set() =~= old_v.to_set().remove(t@));
                assert(old_v[k as int] == t@);
            }
            return true;
        }
        k = k + 1;
    }
    proof {
        assert forall|i: int| 0 <= i < v.len() implies views(v@)[i] != t@ by {
            assert(v@[i]@ != t@);
        }
        assert(!views(v@).contains(t@));
        assert(views(v@).to_set().remove(t@) =~= views(v@).to_set());
    }
    false
}

} // verus!
