use vstd::prelude::*;
use vstd::string::*;

verus! {

/// Characters of `s`, in order, as a vector.
pub fn str_to_chars(s: &str) -> (r: Vec<char>)
    ensures
        r@ == s@,
{
    let n = s.unicode_len();
    let mut r: Vec<char> = Vec::new();
    let mut i: usize = 0;
    while i < n
        invariant
            n == s@.len(),
            i <= n,
            r@ == s@.subrange(0, i as int),
        decreases n - i,
    {
        r.push(s.get_char(i));
        i += 1;
        proof {
            assert(r@ =~= s@.subrange(0, i as int));
        }
    }
    proof {
        assert(r@ =~= s@);
    }
    r
}

/// Relies on `String`'s `FromIterator` implementation: collecting `char`s
/// yields the string of exactly those characters, in order.
#[verifier::external_body]
pub fn chars_to_string(v: &Vec<char>) -> (r: String)
    ensures
        r@ == v@,
{
    v.iter().collect()
}

/// The fields of `s`, in order, when `s` is cut at every occurrence of `sep`.
/// Splitting the empty string yields one empty field, and a separator at the
/// start, the end, or next to another separator yields an empty field, as in
/// `str::split`.
pub open spec fn split_on(s: Seq<char>, sep: char) -> Seq<Seq<char>>
    decreases s.len(),
{
    if s.len() == 0 {
        seq![Seq::<char>::empty()]
    } else if s[0] == sep {
        seq![Seq::<char>::empty()] + split_on(s.skip(1), sep)
    } else {
        let rest = split_on(s.skip(1), sep);
        seq![seq![s[0]] + rest[0]] + rest.skip(1)
    }
}

pub proof fn lemma_split_on_len(s: Seq<char>, sep: char)
    ensures
        split_on(s, sep).len() >= 1,
    decreases s.len(),
{
    if s.len() != 0 && s[0] != sep {
        lemma_split_on_len(s.skip(1), sep);
    }
}

/// A field that holds no separator is returned whole: it forms the sole field
/// of its own split.
pub proof fn lemma_split_on_no_sep(a: Seq<char>, sep: char)
    requires
        forall|j: int| 0 <= j < a.len() ==> a[j] != sep,
    ensures
        split_on(a, sep) == seq![a],
    decreases a.len(),
{
    if a.len() == 0 {
        assert(a =~= Seq::<char>::empty());
        assert(split_on(a, sep) =~= seq![a]);
    } else {
        lemma_split_on_no_sep(a.skip(1), sep);
        assert(split_on(a, sep) == seq![seq![a[0]] + a.skip(1)] + split_on(
            a.skip(1),
            sep,
        ).skip(1));
        assert(seq![a[0]] + a.skip(1) =~= a);
        assert(split_on(a.skip(1), sep).skip(1) =~= Seq::<Seq<char>>::empty());
        assert(split_on(a, sep) =~= seq![a]);
    }
}

/// Cutting at the first separator: a separator-free prefix becomes the first
/// field, and the rest is split on its own.
pub proof fn lemma_split_on_first(a: Seq<char>, t: Seq<char>, sep: char)
    requires
        forall|j: int| 0 <= j < a.len() ==> a[j] != sep,
    ensures
        split_on(a + seq![sep] + t, sep) == seq![a] + split_on(t, sep),
    decreases a.len(),
{
    let s = a + seq![sep] + t;
    if a.len() == 0 {
        assert(s =~= seq![sep] + t);
        assert(s[0] == sep);
        assert(s.skip(1) =~= t);
        assert(split_on(s, sep) == seq![Seq::<char>::empty()] + split_on(t, sep));
        assert(a =~= Seq::<char>::empty());
        assert(seq![a] =~~= seq![Seq::<char>::empty()]);
    } else {
        assert(s[0] == a[0]);
        assert(s[0] != sep);
        assert(s.skip(1) =~= a.skip(1) + seq![sep] + t);
        lemma_split_on_first(a.skip(1), t, sep);
        let rest = split_on(s.skip(1), sep);
        assert(rest == seq![a.skip(1)] + split_on(t, sep));
        assert(rest[0] == a.skip(1));
        assert(seq![s[0]] + rest[0] =~= a);
        assert(rest.skip(1) =~= split_on(t, sep));
        assert(split_on(s, sep) =~= seq![a] + split_on(t, sep));
    }
}

/// The fields of `s`, in order, cut at every occurrence of `sep`.
pub fn split_chars(s: &Vec<char>, sep: char) -> (r: Vec<Vec<char>>)
    ensures
        r@.len() == split_on(s@, sep).len(),
        forall|k: int| 0 <= k < r@.len() ==> #[trigger] r@[k]@ == split_on(s@, sep)[k],
{
    let mut out: Vec<Vec<char>> = Vec::new();
    let mut cur: Vec<char> = Vec::new();
    let mut i: usize = 0;
    proof {
        assert(cur@ + s@.skip(0) =~= s@);
        assert(out.deep_view() + split_on(s@, sep) =~~= split_on(s@, sep));
    }
    while i < s.len()
        invariant
            i <= s@.len(),
            forall|j: int| 0 <= j < cur@.len() ==> cur@[j] != sep,
            split_on(s@, sep) == out.deep_view() + split_on(cur@ + s@.skip(i as int), sep),
        decreases s@.len() - i,
    {
        let c = s[i];
        if c == sep {
            proof {
                assert(s@.skip(i as int) =~= seq![sep] + s@.skip(i as int + 1));
                assert(cur@ + s@.skip(i as int) =~= cur@ + seq![sep] + s@.skip(i as int + 1));
                lemma_split_on_first(cur@, s@.skip(i as int + 1), sep);
            }
            let ghost old_out = out.deep_view();
            out.push(cur);
            proof {
                assert(out.deep_view() =~~= old_out + seq![cur@]);
                assert(out.deep_view() + split_on(s@.skip(i as int + 1), sep) =~~= old_out + (
                seq![cur@] + split_on(s@.skip(i as int + 1), sep)));
            }
            cur = Vec::new();
            proof {
                assert(cur@ + s@.skip(i as int + 1) =~= s@.skip(i as int + 1));
            }
        } else {
            let ghost old_cur = cur@;
            cur.push(c);
            proof {
                assert(cur@ + s@.skip(i as int + 1) =~= old_cur + s@.skip(i as int));
            }
        }
        i += 1;
    }
    proof {
        assert(cur@ + s@.skip(i as int) =~= cur@);
        lemma_split_on_no_sep(cur@, sep);
    }
    let ghost old_out = out.deep_view();
    out.push(cur);
    proof {
        assert(out.deep_view() =~~= old_out + seq![cur@]);
        assert(out.deep_view() =~~= split_on(s@, sep));
        assert(out@.len() == out.deep_view().len());
        assert forall|k: int| 0 <= k < out@.len() implies #[trigger] out@[k]@ == split_on(
            s@,
            sep,
        )[k] by {
            assert(out@[k]@ =~= out.deep_view()[k]);
        }
    }
    out
}

} // verus!
