use vstd::prelude::*;

verus! {

/// True of the decimal digit characters `'0'` through `'9'`.
pub open spec fn is_digit(c: char) -> bool {
    48 <= c as u32 && c as u32 <= 57
}

/// Every character of `s` is a decimal digit.
pub open spec fn all_digits(s: Seq<char>) -> bool {
    forall|i: int| 0 <= i < s.len() ==> is_digit(#[trigger] s[i])
}

/// `p` is a prefix of `s`.
pub open spec fn has_prefix(s: Seq<char>, p: Seq<char>) -> bool {
    p.len() <= s.len() && s.subrange(0, p.len() as int) == p
}

/// Whether `s` starts with `p`, decided character by character.
pub fn starts_with(s: &str, p: &str) -> (r: bool)
    ensures
        r == has_prefix(s@, p@),
{
    let sl: usize = s.unicode_len();
    let pl: usize = p.unicode_len();
    if pl > sl {
        return false;
    }
    let mut i: usize = 0;
    while i < pl
        invariant
            i <= pl,
            pl == p@.len(),
            sl == s@.len(),
            pl <= sl,
            forall|j: int| 0 <= j < i ==> s@[j] == p@[j],
        decreases pl - i,
    {
        if s.get_char(i) != p.get_char(i) {
            proof {
                assert(s@.subrange(0, p@.len() as int)[i as int] == s@[i as int]);
            }
            return false;
        }
        i = i + 1;
    }
    proof {
        assert(s@.subrange(0, p@.len() as int) =~= p@);
    }
    true
}

/// Index of the first occurrence of `sep` in `s`, if any.
pub fn find_char(s: &str, sep: char) -> (r: Option<usize>)
    ensures
        match r {
            Some(i) => i < s@.len() && s@[i as int] == sep && forall|j: int|
                0 <= j < i ==> s@[j] != sep,
            None => forall|j: int| 0 <= j < s@.len() ==> s@[j] != sep,
        },
{
    let len: usize = s.unicode_len();
    let mut i: usize = 0;
    while i < len
        invariant
            i <= len,
            len == s@.len(),
            forall|j: int| 0 <= j < i ==> s@[j] != sep,
        decreases len - i,
    {
        if s.get_char(i) == sep {
            return Some(i);
        }
        i = i + 1;
    }
    None
}

/// The pieces of `s` delimited by `sep`.  A string without the separator is
/// one piece; every separator ends the current piece and starts a new one,
/// so adjacent separators produce empty pieces, as a comma-delimited record
/// line demands.
pub open spec fn split_on_spec(s: Seq<char>, sep: char) -> Seq<Seq<char>>
    decreases s.len(),
{
    if s.len() == 0 {
        seq![Seq::<char>::empty()]
    } else if s[0] == sep {
        seq![Seq::<char>::empty()] + split_on_spec(s.skip(1), sep)
    } else {
        let rest = split_on_spec(s.skip(1), sep);
        seq![seq![s[0]] + rest[0]] + rest.skip(1)
    }
}

/// Splitting always yields at least one piece.
pub proof fn lemma_split_len(s: Seq<char>, sep: char)
    ensures
        split_on_spec(s, sep).len() >= 1,
    decreases s.len(),
{
    if s.len() == 0 {
    } else {
        lemma_split_len(s.skip(1), sep);
    }
}

/// A string free of the separator splits into exactly itself.
pub proof fn lemma_split_no_sep(s: Seq<char>, sep: char)
    requires
        forall|i: int| 0 <= i < s.len() ==> s[i] != sep,
    ensures
        split_on_spec(s, sep) == seq![s],
    decreases s.len(),
{
    if s.len() == 0 {
        assert(split_on_spec(s, sep) =~~= seq![s]);
    } else {
        lemma_split_no_sep(s.skip(1), sep);
        lemma_split_len(s.skip(1), sep);
        assert(seq![s[0]] + s.skip(1) =~= s);
        assert(split_on_spec(s, sep) =~~= seq![s]);
    }
}

/// Splitting at the first separator: the piece before it, then the split of
/// what follows it.
pub proof fn lemma_split_at_first(s: Seq<char>, sep: char, k: int)
    requires
        0 <= k < s.len(),
        s[k] == sep,
        forall|i: int| 0 <= i < k ==> s[i] != sep,
    ensures
        split_on_spec(s, sep) == seq![s.subrange(0, k)] + split_on_spec(
            s.skip(k + 1),
            sep,
        ),
    decreases k,
{
    if k == 0 {
        assert(s.subrange(0, 0) =~= Seq::<char>::empty());
        assert(split_on_spec(s, sep) =~~= seq![s.subrange(0, k)] + split_on_spec(
            s.skip(k + 1),
            sep,
        ));
    } else {
        let t = s.skip(1);
        assert(t[k - 1] == s[k]);
        assert(forall|i: int| 0 <= i < k - 1 ==> t[i] == s[i + 1] && t[i] != sep);
        lemma_split_at_first(t, sep, k - 1);
        lemma_split_len(t.skip(k), sep);
        assert(t.subrange(0, k - 1) =~= s.subrange(1, k));
        assert(t.skip(k) =~= s.skip(k + 1));
        let rest = split_on_spec(t, sep);
        assert(rest == seq![s.subrange(1, k)] + split_on_spec(s.skip(k + 1), sep));
        assert(rest[0] == s.subrange(1, k));
        assert(seq![s[0]] + rest[0] =~= s.subrange(0, k));
        assert(rest.skip(1) =~~= split_on_spec(s.skip(k + 1), sep));
        assert(split_on_spec(s, sep) =~~= seq![s.subrange(0, k)] + split_on_spec(
            s.skip(k + 1),
            sep,
        ));
    }
}

/// Split `s` into the pieces delimited by `sep`, in order.
pub fn split_on(s: &str, sep: char) -> (r: Vec<String>)
    ensures
        r.deep_view() == split_on_spec(s@, sep),
    decreases s@.len(),
{
    let len: usize = s.unicode_len();
    match find_char(s, sep) {
        None => {
            proof {
                lemma_split_no_sep(s@, sep);
            }
            let mut r: Vec<String> = Vec::new();
            r.push(s.to_owned());
            proof {
                assert(r.deep_view() =~~= split_on_spec(s@, sep));
            }
            r
        },
        Some(i) => {
            let head: String = s.substring_char(0, i).to_owned();
            let tail: &str = s.substring_char(i + 1, len);
            proof {
                assert(tail@ =~= s@.skip(i + 1));
            }
            let mut r = split_on(tail, sep);
            r.insert(0, head);
            proof {
                lemma_split_at_first(s@, sep, i as int);
                assert(r.deep_view() =~~= split_on_spec(s@, sep));
            }
            r
        },
    }
}

/// The characters of `s` after its first `n`.
pub fn strip_prefix_chars(s: &String, n: usize) -> (r: String)
    requires
        n <= s@.len(),
    ensures
        r@ == s@.skip(n as int),
{
    let st: &str = s.as_str();
    let len: usize = st.unicode_len();
    let r: String = st.substring_char(n, len).to_owned();
    proof {
        assert(r@ =~= s@.skip(n as int));
    }
    r
}

} // verus!
