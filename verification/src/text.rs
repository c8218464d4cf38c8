//! Verified text processing: whitespace tokenization, trimming, line
//! splitting and decimal parsing.
//!
//! These are the primitives behind the job-list wire format (one job per
//! line, fields separated by whitespace) and behind the process-table
//! status records that the tree-killing code reads.
use vstd::prelude::*;
use vstd::string::StrSliceExecFns;

verus! {

/// The whitespace set used by every splitter in this crate: the
/// Unicode White_Space characters, the set the standard library's
/// whitespace splitting and trimming go by.
pub open spec fn is_space(c: char) -> bool {
    ||| c == ' '
    ||| c == '\t'
    ||| c == '\n'
    ||| c == '\r'
    ||| c == '\x0b'
    ||| c == '\x0c'
    ||| c == '\u{85}'
    ||| c == '\u{a0}'
    ||| c == '\u{1680}'
    ||| c == '\u{2000}'
    ||| c == '\u{2001}'
    ||| c == '\u{2002}'
    ||| c == '\u{2003}'
    ||| c == '\u{2004}'
    ||| c == '\u{2005}'
    ||| c == '\u{2006}'
    ||| c == '\u{2007}'
    ||| c == '\u{2008}'
    ||| c == '\u{2009}'
    ||| c == '\u{200a}'
    ||| c == '\u{2028}'
    ||| c == '\u{2029}'
    ||| c == '\u{202f}'
    ||| c == '\u{205f}'
    ||| c == '\u{3000}'
}

pub fn space_char(c: char) -> (r: bool)
    ensures
        r == is_space(c),
{
    c == ' ' || c == '\t' || c == '\n' || c == '\r' || c == '\x0b' || c == '\x0c'
        || c == '\u{85}' || c == '\u{a0}' || c == '\u{1680}' || c == '\u{2000}'
        || c == '\u{2001}' || c == '\u{2002}' || c == '\u{2003}' || c == '\u{2004}'
        || c == '\u{2005}' || c == '\u{2006}' || c == '\u{2007}' || c == '\u{2008}'
        || c == '\u{2009}' || c == '\u{200a}' || c == '\u{2028}' || c == '\u{2029}'
        || c == '\u{202f}' || c == '\u{205f}' || c == '\u{3000}'
}

/// The maximal whitespace-separated tokens of `s`, in order.
pub open spec fn tokens_of(s: Seq<char>) -> Seq<Seq<char>>
    decreases s.len(),
{
    if s.len() == 0 {
        Seq::<Seq<char>>::empty()
    } else {
        let rest = tokens_of(s.drop_first());
        if is_space(s[0]) {
            rest
        } else if s.len() >= 2 && !is_space(s[1]) {
            seq![seq![s[0]] + rest.first()] + rest.drop_first()
        } else {
            seq![seq![s[0]]] + rest
        }
    }
}

proof fn lemma_tokens_skip_space(s: Seq<char>, i: int)
    requires
        0 <= i < s.len(),
        is_space(s[i]),
    ensures
        tokens_of(s.skip(i)) == tokens_of(s.skip(i + 1)),
{
    assert(s.skip(i).drop_first() =~= s.skip(i + 1));
}

proof fn lemma_tokens_take_token(s: Seq<char>, i: int, j: int)
    requires
        0 <= i < j <= s.len(),
        forall|k: int| i <= k < j ==> !is_space(s[k]),
        j == s.len() || is_space(s[j]),
    ensures
        tokens_of(s.skip(i)) == seq![s.subrange(i, j)] + tokens_of(s.skip(j)),
    decreases j - i,
{
    let t = s.skip(i);
    assert(t[0] == s[i]);
    assert(t.drop_first() =~= s.skip(i + 1));
    if j == i + 1 {
        if j == s.len() {
            assert(t.len() == 1);
            assert(tokens_of(t) == seq![seq![t[0]]] + tokens_of(t.drop_first()));
        } else {
            assert(t[1] == s[j]);
            assert(is_space(t[1]));
            assert(tokens_of(t) == seq![seq![t[0]]] + tokens_of(t.drop_first()));
        }
        assert(seq![t[0]] =~= s.subrange(i, j));
        assert(tokens_of(t) =~~= seq![s.subrange(i, j)] + tokens_of(s.skip(j)));
    } else {
        assert(t[1] == s[i + 1]);
        assert(!is_space(t[1]));
        let rest = tokens_of(t.drop_first());
        assert(tokens_of(t) == seq![seq![t[0]] + rest.first()] + rest.drop_first());
        lemma_tokens_take_token(s, i + 1, j);
        assert(rest == seq![s.subrange(i + 1, j)] + tokens_of(s.skip(j)));
        assert(rest.first() == s.subrange(i + 1, j));
        assert(rest.drop_first() =~= tokens_of(s.skip(j)));
        assert(seq![t[0]] + rest.first() =~= s.subrange(i, j));
        assert(tokens_of(t) =~~= seq![s.subrange(i, j)] + tokens_of(s.skip(j)));
    }
}

/// Splits `s` into its maximal whitespace-separated tokens.
pub fn split_tokens(s: &str) -> (r: Vec<String>)
    ensures
        r.deep_view() == tokens_of(s@),
{
    let n = s.unicode_len();
    let mut r: Vec<String> = Vec::new();
    let mut i: usize = 0;
    proof {
        assert(s@.skip(0) =~= s@);
    }
    while i < n
        invariant
            n == s@.len(),
            0 <= i <= n,
            tokens_of(s@) == r.deep_view() + tokens_of(s@.skip(i as int)),
        decreases n - i,
    {
        let c = s.get_char(i);
        if space_char(c) {
            proof {
                lemma_tokens_skip_space(s@, i as int);
            }
            i = i + 1;
        } else {
            let mut j: usize = i;
            while j < n && !space_char(s.get_char(j))
                invariant
                    n == s@.len(),
                    i <= j <= n,
                    !is_space(s@[i as int]),
                    forall|k: int| i <= k < j ==> !is_space(s@[k]),
                decreases n - j,
            {
                j = j + 1;
            }
            assert(j == n || is_space(s@[j as int]));
            assert(i < j) by {
                if i == j {
                    assert(j < n && !is_space(s@[i as int]));
                }
            }
            let tok = s.substring_char(i, j).to_owned();
            let ghost old_deep = r.deep_view();
            r.push(tok);
            proof {
                assert(r.deep_view() =~~= old_deep.push(s@.subrange(i as int, j as int)));
                lemma_tokens_take_token(s@, i as int, j as int);
                assert(r.deep_view() + tokens_of(s@.skip(j as int)) =~~= old_deep + tokens_of(
                    s@.skip(i as int),
                ));
            }
            i = j;
        }
    }
    proof {
        assert(s@.skip(n as int) =~= Seq::<char>::empty());
        assert(tokens_of(Seq::<char>::empty()) == Seq::<Seq<char>>::empty());
        assert(r.deep_view() + Seq::<Seq<char>>::empty() =~~= r.deep_view());
    }
    r
}

/// `s` with leading whitespace removed.
pub open spec fn trim_left(s: Seq<char>) -> Seq<char>
    decreases s.len(),
{
    if s.len() > 0 && is_space(s.first()) {
        trim_left(s.drop_first())
    } else {
        s
    }
}

/// `s` with trailing whitespace removed.
pub open spec fn trim_right(s: Seq<char>) -> Seq<char>
    decreases s.len(),
{
    if s.len() > 0 && is_space(s.last()) {
        trim_right(s.drop_last())
    } else {
        s
    }
}

/// `s` with both leading and trailing whitespace removed.
pub open spec fn trimmed(s: Seq<char>) -> Seq<char> {
    trim_right(trim_left(s))
}

proof fn lemma_trim_left_at(s: Seq<char>, a: int)
    requires
        0 <= a <= s.len(),
        forall|k: int| 0 <= k < a ==> is_space(s[k]),
        a == s.len() || !is_space(s[a]),
    ensures
        trim_left(s) == s.skip(a),
    decreases a,
{
    if a == 0 {
        assert(s.skip(0) =~= s);
    } else {
        assert(is_space(s.first()));
        lemma_trim_left_at(s.drop_first(), a - 1);
        assert(s.drop_first().skip(a - 1) =~= s.skip(a));
    }
}

proof fn lemma_trim_right_at(s: Seq<char>, b: int)
    requires
        0 <= b <= s.len(),
        forall|k: int| b <= k < s.len() ==> is_space(s[k]),
        b == 0 || !is_space(s[b - 1]),
    ensures
        trim_right(s) == s.take(b),
    decreases s.len(),
{
    if b == s.len() {
        if s.len() > 0 && is_space(s.last()) {
            assert(!is_space(s[b - 1]));
            assert(false);
        }
        assert(s.take(b) =~= s);
    } else {
        assert(is_space(s.last()));
        lemma_trim_right_at(s.drop_last(), b);
        assert(s.drop_last().take(b) =~= s.take(b));
    }
}

/// Removes leading and trailing whitespace from `s`.
pub fn trim_str(s: &str) -> (r: String)
    ensures
        r@ == trimmed(s@),
{
    let n = s.unicode_len();
    let mut a: usize = 0;
    while a < n && space_char(s.get_char(a))
        invariant
            n == s@.len(),
            0 <= a <= n,
            forall|k: int| 0 <= k < a ==> is_space(s@[k]),
        decreases n - a,
    {
        a = a + 1;
    }
    let mut b: usize = n;
    while b > a && space_char(s.get_char(b - 1))
        invariant
            n == s@.len(),
            a <= b <= n,
            forall|k: int| b <= k < n ==> is_space(s@[k]),
        decreases b,
    {
        b = b - 1;
    }
    proof {
        lemma_trim_left_at(s@, a as int);
        let t = s@.skip(a as int);
        lemma_trim_right_at(t, b - a);
        assert(t.take(b - a) =~= s@.subrange(a as int, b as int));
    }
    let r = s.substring_char(a, b).to_owned();
    r
}

/// The segments of `s` between line feeds; an empty `s` is one empty line,
/// and every line feed ends a line, as the job-list format reads files.
pub open spec fn lines_of(s: Seq<char>) -> Seq<Seq<char>>
    decreases s.len(),
{
    if s.len() == 0 {
        seq![Seq::<char>::empty()]
    } else if s.first() == '\n' {
        seq![Seq::<char>::empty()] + lines_of(s.drop_first())
    } else {
        let rest = lines_of(s.drop_first());
        seq![seq![s.first()] + rest.first()] + rest.drop_first()
    }
}

proof fn lemma_lines_take(s: Seq<char>, i: int)
    requires
        0 <= i <= s.len(),
        forall|k: int| 0 <= k < i ==> s[k] != '\n',
        i == s.len() || s[i] == '\n',
    ensures
        lines_of(s) == seq![s.take(i)] + (if i < s.len() {
            lines_of(s.skip(i + 1))
        } else {
            Seq::<Seq<char>>::empty()
        }),
    decreases i,
{
    if i == 0 {
        if s.len() == 0 {
            assert(lines_of(s) =~~= seq![s.take(0)] + Seq::<Seq<char>>::empty());
        } else {
            assert(s.first() == '\n');
            assert(s.drop_first() =~= s.skip(1));
            assert(s.take(0) =~= Seq::<char>::empty());
            assert(lines_of(s) =~~= seq![s.take(0)] + lines_of(s.skip(1)));
        }
    } else {
        assert(s.first() != '\n');
        let rest = lines_of(s.drop_first());
        lemma_lines_take(s.drop_first(), i - 1);
        let tail = if i < s.len() {
            lines_of(s.skip(i + 1))
        } else {
            Seq::<Seq<char>>::empty()
        };
        assert(s.drop_first().take(i - 1) =~= s.subrange(1, i));
        if i < s.len() {
            assert(s.drop_first().skip(i) =~= s.skip(i + 1));
        }
        assert(rest == seq![s.subrange(1, i)] + tail);
        assert(rest.first() == s.subrange(1, i));
        assert(rest.drop_first() =~= tail);
        assert(seq![s.first()] + rest.first() =~= s.take(i));
        assert(lines_of(s) =~~= seq![s.take(i)] + tail);
    }
}

/// Splits `s` at line feeds, keeping empty segments.
pub fn split_lines(s: &str) -> (r: Vec<String>)
    ensures
        r.deep_view() == lines_of(s@),
{
    let n = s.unicode_len();
    let mut r: Vec<String> = Vec::new();
    let mut start: usize = 0;
    let mut i: usize = 0;
    proof {
        assert(s@.skip(0) =~= s@);
    }
    while i < n
        invariant
            n == s@.len(),
            0 <= start <= i <= n,
            forall|k: int| start <= k < i ==> s@[k] != '\n',
            lines_of(s@) == r.deep_view() + lines_of(s@.skip(start as int)),
        decreases n - i,
    {
        if s.get_char(i) == '\n' {
            let line = s.substring_char(start, i).to_owned();
            let ghost old_deep = r.deep_view();
            r.push(line);
            proof {
                let t = s@.skip(start as int);
                lemma_lines_take(t, i - start);
                assert(t.take(i - start) =~= s@.subrange(start as int, i as int));
                assert(t.skip(i - start + 1) =~= s@.skip(i + 1));
                assert(i - start < t.len());
                assert(r.deep_view() =~~= old_deep.push(s@.subrange(start as int, i as int)));
                assert(r.deep_view() + lines_of(s@.skip(i + 1)) =~~= old_deep + lines_of(t));
            }
            start = i + 1;
        }
        i = i + 1;
    }
    let last = s.substring_char(start, n).to_owned();
    let ghost old_deep = r.deep_view();
    r.push(last);
    proof {
        let t = s@.skip(start as int);
        lemma_lines_take(t, n - start);
        assert(t.take(n - start) =~= s@.subrange(start as int, n as int));
        assert(r.deep_view() =~~= old_deep.push(s@.subrange(start as int, n as int)));
        assert(r.deep_view() =~~= old_deep + lines_of(t));
    }
    r
}

/// Decimal digit test over code points.
pub open spec fn is_digit(c: char) -> bool {
    48 <= c as u32 && c as u32 <= 57
}

pub open spec fn digit_val(c: char) -> int {
    c as u32 - 48
}

pub open spec fn all_digits(s: Seq<char>) -> bool {
    forall|i: int| 0 <= i < s.len() ==> is_digit(s[i])
}

/// The value of a digit string read in base ten.
pub open spec fn digits_val(s: Seq<char>) -> int
    decreases s.len(),
{
    if s.len() == 0 {
        0
    } else {
        digits_val(s.drop_last()) * 10 + digit_val(s.last())
    }
}

/// What `str::parse::<i32>` accepts: an optional sign followed by at
/// least one digit, with the value in range; anything else is `None`.
pub open spec fn spec_parse_i32(s: Seq<char>) -> Option<i32> {
    let signed = s.len() > 0 && (s.first() == '-' || s.first() == '+');
    let negative = s.len() > 0 && s.first() == '-';
    let ds = if signed {
        s.drop_first()
    } else {
        s
    };
    if ds.len() == 0 || !all_digits(ds) {
        None
    } else {
        let v = if negative {
            -digits_val(ds)
        } else {
            digits_val(ds)
        };
        if i32::MIN <= v <= i32::MAX {
            Some(v as i32)
        } else {
            None
        }
    }
}

proof fn lemma_digits_val_nonneg(s: Seq<char>)
    requires
        all_digits(s),
    ensures
        digits_val(s) >= 0,
    decreases s.len(),
{
    if s.len() > 0 {
        assert(all_digits(s.drop_last()));
        lemma_digits_val_nonneg(s.drop_last());
    }
}

proof fn lemma_digits_val_mono(s: Seq<char>, i: int)
    requires
        all_digits(s),
        0 <= i <= s.len(),
    ensures
        digits_val(s) >= digits_val(s.take(i)),
    decreases s.len() - i,
{
    if i == s.len() {
        assert(s.take(i) =~= s);
    } else {
        assert(s.take(i + 1).drop_last() =~= s.take(i));
        assert(s.take(i + 1).last() == s[i]);
        assert(all_digits(s.take(i)));
        lemma_digits_val_nonneg(s.take(i));
        assert(digits_val(s.take(i + 1)) == digits_val(s.take(i)) * 10 + digit_val(s[i]));
        assert(digits_val(s.take(i + 1)) >= digits_val(s.take(i)));
        lemma_digits_val_mono(s, i + 1);
    }
}

/// Parses a signed decimal integer exactly as `str::parse::<i32>` would.
pub fn parse_i32(s: &str) -> (r: Option<i32>)
    ensures
        r == spec_parse_i32(s@),
{
    let n = s.unicode_len();
    if n == 0 {
        return None;
    }
    let c0 = s.get_char(0);
    let neg = c0 == '-';
    let start: usize = if c0 == '-' || c0 == '+' {
        1
    } else {
        0
    };
    if start >= n {
        return None;
    }
    let ghost ds = s@.skip(start as int);
    proof {
        if start == 1 {
            assert(ds =~= s@.drop_first());
        } else {
            assert(ds =~= s@);
        }
    }
    let mut mag: u64 = 0;
    let mut i: usize = start;
    while i < n
        invariant
            n == s@.len(),
            start <= i <= n,
            start < n,
            ds == s@.skip(start as int),
            ds == (if s@.len() > 0 && (s@.first() == '-' || s@.first() == '+') {
                s@.drop_first()
            } else {
                s@
            }),
            neg == (s@.len() > 0 && s@.first() == '-'),
            forall|k: int| start <= k < i ==> is_digit(s@[k]),
            mag == digits_val(ds.take(i - start)),
            mag <= 0x8000_0000u64,
        decreases n - i,
    {
        let c = s.get_char(i);
        let u = c as u32;
        if u < 48 || u > 57 {
            proof {
                assert(ds[i - start] == s@[i as int]);
                assert(!is_digit(ds[i - start]));
            }
            return None;
        }
        let d = (u - 48) as u64;
        proof {
            assert(ds.take(i - start + 1).drop_last() =~= ds.take(i - start));
            assert(ds.take(i - start + 1).last() == s@[i as int]);
        }
        mag = mag * 10 + d;
        if mag > 0x8000_0000u64 {
            proof {
                if all_digits(ds) {
                    lemma_digits_val_mono(ds, i - start + 1);
                    assert(digits_val(ds) > 0x8000_0000);
                }
            }
            return None;
        }
        i = i + 1;
    }
    proof {
        assert(ds.take(n - start) =~= ds);
        assert(all_digits(ds));
        assert(mag == digits_val(ds));
    }
    if neg {
        if mag == 0x8000_0000u64 {
            Some(i32::MIN)
        } else {
            Some(0i32 - (mag as i32))
        }
    } else {
        if mag == 0x8000_0000u64 {
            None
        } else {
            Some(mag as i32)
        }
    }
}

} // verus!
