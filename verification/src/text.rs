//! Verified text building blocks for the code generator: decimal rendering
//! of integers and newline rewriting for indentation and doc comments.
//!
//! Every executable function returns exactly the sequence its spec function
//! describes, so generated text is a mathematical function of the schema.

use vstd::prelude::*;
use vstd::string::StringExecFns;

verus! {

/// The indentation unit of generated code: four spaces.
pub open spec fn spec_tab() -> Seq<char> {
    "    "@
}

/// The character a decimal digit value renders as.
pub open spec fn digit_char(d: nat) -> char {
    if d == 0 {
        '0'
    } else if d == 1 {
        '1'
    } else if d == 2 {
        '2'
    } else if d == 3 {
        '3'
    } else if d == 4 {
        '4'
    } else if d == 5 {
        '5'
    } else if d == 6 {
        '6'
    } else if d == 7 {
        '7'
    } else if d == 8 {
        '8'
    } else {
        '9'
    }
}

/// Decimal digits of `n`, most significant first, no leading zeros
/// (except for `n == 0`, which renders as `"0"`).
pub open spec fn spec_dec(n: nat) -> Seq<char>
    decreases n,
{
    if n < 10 {
        seq![digit_char(n)]
    } else {
        spec_dec(n / 10) + seq![digit_char(n % 10)]
    }
}

/// `s` with every `'\n'` replaced by `repl`.
pub open spec fn spec_replace_nl(s: Seq<char>, repl: Seq<char>) -> Seq<char>
    decreases s.len(),
{
    if s.len() == 0 {
        Seq::empty()
    } else {
        (if s[0] == '\n' {
            repl
        } else {
            seq![s[0]]
        }) + spec_replace_nl(s.drop_first(), repl)
    }
}

/// Replacement distributes over concatenation.
pub proof fn lemma_replace_nl_concat(a: Seq<char>, b: Seq<char>, repl: Seq<char>)
    ensures
        spec_replace_nl(a + b, repl) == spec_replace_nl(a, repl) + spec_replace_nl(b, repl),
    decreases a.len(),
{
    if a.len() == 0 {
        assert(a + b =~= b);
        assert(spec_replace_nl(a, repl) + spec_replace_nl(b, repl) =~= spec_replace_nl(b, repl));
    } else {
        assert((a + b).drop_first() =~= a.drop_first() + b);
        lemma_replace_nl_concat(a.drop_first(), b, repl);
        assert((a + b)[0] == a[0]);
        assert(spec_replace_nl(a, repl) + spec_replace_nl(b, repl) =~= (if a[0] == '\n' {
            repl
        } else {
            seq![a[0]]
        }) + (spec_replace_nl(a.drop_first(), repl) + spec_replace_nl(b, repl)));
    }
}

/// A sequence without newlines is left unchanged by replacement.
pub proof fn lemma_replace_nl_id(s: Seq<char>, repl: Seq<char>)
    requires
        forall|i: int| 0 <= i < s.len() ==> s[i] != '\n',
    ensures
        spec_replace_nl(s, repl) == s,
    decreases s.len(),
{
    if s.len() == 0 {
        assert(spec_replace_nl(s, repl) =~= s);
    } else {
        lemma_replace_nl_id(s.drop_first(), repl);
        assert(spec_replace_nl(s, repl) =~= seq![s[0]] + s.drop_first());
        assert(seq![s[0]] + s.drop_first() =~= s);
    }
}

/// Appends the rendering of one decimal digit to `s`.
fn push_digit(s: &mut String, d: u64)
    requires
        d < 10,
    ensures
        final(s)@ == old(s)@ + seq![digit_char(d as nat)],
{
    let t: &str = if d == 0 {
        "0"
    } else if d == 1 {
        "1"
    } else if d == 2 {
        "2"
    } else if d == 3 {
        "3"
    } else if d == 4 {
        "4"
    } else if d == 5 {
        "5"
    } else if d == 6 {
        "6"
    } else if d == 7 {
        "7"
    } else if d == 8 {
        "8"
    } else {
        "9"
    };
    proof {
        reveal_strlit("0");
        reveal_strlit("1");
        reveal_strlit("2");
        reveal_strlit("3");
        reveal_strlit("4");
        reveal_strlit("5");
        reveal_strlit("6");
        reveal_strlit("7");
        reveal_strlit("8");
        reveal_strlit("9");
    }
    s.append(t);
    proof {
        assert(t@ =~= seq![digit_char(d as nat)]);
    }
}

/// Appends the decimal rendering of `n` to `s`.
pub fn push_dec(s: &mut String, n: u64)
    ensures
        final(s)@ == old(s)@ + spec_dec(n as nat),
    decreases n,
{
    if n < 10 {
        push_digit(s, n);
    } else {
        push_dec(s, n / 10);
        push_digit(s, n % 10);
    }
}

/// Character-wise string equality, decided without assuming ASCII content.
pub fn str_eq_chars(a: &str, b: &str) -> (r: bool)
    ensures
        r == (a@ == b@),
{
    let na = a.unicode_len();
    let nb = b.unicode_len();
    if na != nb {
        return false;
    }
    let mut i: usize = 0;
    while i < na
        invariant
            na == a@.len(),
            na == b@.len(),
            0 <= i <= na,
            forall|j: int| 0 <= j < i ==> a@[j] == b@[j],
        decreases na - i,
    {
        if a.get_char(i) != b.get_char(i) {
            return false;
        }
        i = i + 1;
    }
    proof {
        assert(a@ =~= b@);
    }
    true
}

/// Appends `s` with every `'\n'` replaced by `repl` onto `out`.
pub fn push_replace_nl(out: &mut String, s: &str, repl: &str)
    ensures
        final(out)@ == old(out)@ + spec_replace_nl(s@, repl@),
{
    let n = s.unicode_len();
    let mut start: usize = 0;
    let mut i: usize = 0;
    while i < n
        invariant
            n == s@.len(),
            0 <= start <= i <= n,
            out@ == old(out)@ + spec_replace_nl(s@.subrange(0, start as int), repl@),
            forall|j: int| start <= j < i ==> s@[j] != '\n',
        decreases n - i,
    {
        let c = s.get_char(i);
        if c == '\n' {
            let run = s.substring_char(start, i);
            out.append(run);
            out.append(repl);
            proof {
                let pre = s@.subrange(0, start as int);
                let mid = s@.subrange(start as int, i as int);
                let nl = s@.subrange(i as int, i as int + 1);
                assert(s@.subrange(0, i as int + 1) =~= (pre + mid) + nl);
                lemma_replace_nl_concat(pre + mid, nl, repl@);
                lemma_replace_nl_concat(pre, mid, repl@);
                lemma_replace_nl_id(mid, repl@);
                assert(nl[0] == '\n');
                assert(nl.drop_first() =~= Seq::<char>::empty());
                assert(spec_replace_nl(Seq::<char>::empty(), repl@) =~= Seq::<char>::empty());
                assert(spec_replace_nl(nl, repl@) =~= repl@);
                assert(out@ =~= old(out)@ + spec_replace_nl(
                    s@.subrange(0, i as int + 1),
                    repl@,
                ));
            }
            start = i + 1;
        }
        i = i + 1;
    }
    let run = s.substring_char(start, n);
    out.append(run);
    proof {
        let pre = s@.subrange(0, start as int);
        let mid = s@.subrange(start as int, n as int);
        assert(s@ =~= pre + mid);
        lemma_replace_nl_concat(pre, mid, repl@);
        lemma_replace_nl_id(mid, repl@);
        assert(out@ =~= old(out)@ + spec_replace_nl(s@, repl@));
    }
}

} // verus!
