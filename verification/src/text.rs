use vstd::prelude::*;

verus! {

/// Unicode `White_Space`: the characters that separate tokens of a settings line.
pub open spec fn is_ws(c: char) -> bool {
    let n = c as u32;
    ||| 0x09 <= n <= 0x0d
    ||| n == 0x20
    ||| n == 0x85
    ||| n == 0xa0
    ||| n == 0x1680
    ||| 0x2000 <= n <= 0x200a
    ||| n == 0x2028
    ||| n == 0x2029
    ||| n == 0x202f
    ||| n == 0x205f
    ||| n == 0x3000
}

/// Whether `c` is a Unicode whitespace character.
pub fn is_whitespace(c: char) -> (b: bool)
    ensures
        b == is_ws(c),
{
    let n = c as u32;
    (0x09 <= n && n <= 0x0d) || n == 0x20 || n == 0x85 || n == 0xa0 || n == 0x1680 || (0x2000
        <= n && n <= 0x200a) || n == 0x2028 || n == 0x2029 || n == 0x202f || n == 0x205f || n
        == 0x3000
}

/// The maximal runs of non-whitespace characters of `s`, in order.
pub open spec fn split_whitespace(s: Seq<char>) -> Seq<Seq<char>>
    decreases s.len(),
{
    if s.len() == 0 {
        Seq::empty()
    } else {
        let t = split_whitespace(s.drop_last());
        let c = s.last();
        if is_ws(c) {
            t
        } else if s.len() >= 2 && !is_ws(s[s.len() - 2]) {
            t.update(t.len() - 1, t.last().push(c))
        } else {
            t.push(seq![c])
        }
    }
}

/// A line that ends in a non-whitespace character has at least one token.
pub proof fn lemma_split_nonempty(s: Seq<char>)
    requires
        s.len() > 0,
        !is_ws(s.last()),
    ensures
        split_whitespace(s).len() > 0,
    decreases s.len(),
{
    if s.len() >= 2 && !is_ws(s[s.len() - 2]) {
        assert(s.drop_last().last() == s[s.len() - 2]);
        lemma_split_nonempty(s.drop_last());
    }
}

/// An ASCII decimal digit.
pub open spec fn is_digit(c: char) -> bool {
    48 <= (c as u32) <= 57
}

/// The value of an ASCII decimal digit.
pub open spec fn digit_value(c: char) -> nat {
    ((c as u32) - 48) as nat
}

/// Every character of `s` is a decimal digit.
pub open spec fn all_digits(s: Seq<char>) -> bool {
    forall|i: int| 0 <= i < s.len() ==> #[trigger] is_digit(s[i])
}

/// The number that a string of decimal digits writes, most significant first.
pub open spec fn decimal_value(s: Seq<char>) -> nat
    decreases s.len(),
{
    if s.len() == 0 {
        0
    } else {
        decimal_value(s.drop_last()) * 10 + digit_value(s.last())
    }
}

/// The shortest decimal writing of `n`.
pub open spec fn decimal_digits(n: nat) -> Seq<char>
    decreases n,
{
    if n < 10 {
        seq![((n + 48) as u32) as char]
    } else {
        decimal_digits(n / 10).push((((n % 10) + 48) as u32) as char)
    }
}

/// A prefix of a digit string never writes a larger number than the whole string.
pub proof fn lemma_decimal_prefix_le(s: Seq<char>, i: int)
    requires
        0 <= i <= s.len(),
    ensures
        decimal_value(s.take(i)) <= decimal_value(s),
    decreases s.len() - i,
{
    if i < s.len() {
        lemma_decimal_prefix_le(s, i + 1);
        assert(s.take(i + 1).drop_last() =~= s.take(i));
    } else {
        assert(s.take(i) =~= s);
    }
}

/// Reading back the decimal writing of a number gives that number.
pub proof fn law_decimal_round_trip(n: nat)
    ensures
        decimal_digits(n).len() > 0,
        all_digits(decimal_digits(n)),
        decimal_value(decimal_digits(n)) == n,
    decreases n,
{
    let c = (((n % 10) + 48) as u32) as char;
    assert(c as u32 == (n % 10) + 48);
    assert(digit_value(c) == n % 10);
    let d = decimal_digits(n);
    if n < 10 {
        assert(n % 10 == n);
        assert(d.last() == c);
        assert(d.drop_last() =~= Seq::<char>::empty());
        assert(decimal_value(d) == decimal_value(d.drop_last()) * 10 + digit_value(d.last()));
    } else {
        law_decimal_round_trip(n / 10);
        assert(d.drop_last() =~= decimal_digits(n / 10));
        assert(d.last() == c);
        assert(decimal_value(d) == decimal_value(d.drop_last()) * 10 + digit_value(d.last()));
        assert((n / 10) * 10 + n % 10 == n);
        assert forall|i: int| 0 <= i < d.len() implies #[trigger] is_digit(d[i]) by {
            if i < d.len() - 1 {
                assert(d[i] == decimal_digits(n / 10)[i]);
            }
        }
    }
}

/// The number written by a string of decimal digits, or `None` when it does
/// not fit in a `u32`.
pub fn parse_decimal(s: &Vec<char>) -> (r: Option<u32>)
    requires
        all_digits(s@),
    ensures
        r == (if decimal_value(s@) <= u32::MAX {
            Some(decimal_value(s@) as u32)
        } else {
            None
        }),
{
    let mut acc: u64 = 0;
    let mut i: usize = 0;
    while i < s.len()
        invariant
            i <= s@.len(),
            all_digits(s@),
            acc == decimal_value(s@.take(i as int)),
            acc <= u32::MAX,
        decreases s@.len() - i,
    {
        let ghost pre = s@.take(i as int);
        assert(s@.take(i as int + 1).drop_last() =~= pre);
        assert(is_digit(s@[i as int]));
        let d = (s[i] as u32 - 48) as u64;
        acc = acc * 10 + d;
        i = i + 1;
        if acc > 0xffff_ffff {
            proof {
                lemma_decimal_prefix_le(s@, i as int);
            }
            return None;
        }
    }
    proof {
        assert(s@.take(i as int) =~= s@);
    }
    Some(acc as u32)
}

/// Appends one character to a string.
#[verifier::external_body]
pub fn push_char(s: &mut String, c: char)
    ensures
        final(s)@ == old(s)@.push(c),
{
    s.push(c);
}

/// A string holding exactly the given characters.
pub fn string_of(chars: &Vec<char>) -> (s: String)
    ensures
        s@ == chars@,
{
    let mut s = String::new();
    let mut i: usize = 0;
    while i < chars.len()
        invariant
            i <= chars@.len(),
            s@ == chars@.take(i as int),
        decreases chars@.len() - i,
    {
        push_char(&mut s, chars[i]);
        i = i + 1;
        assert(s@ =~= chars@.take(i as int));
    }
    assert(chars@.take(i as int) =~= chars@);
    s
}

/// Appends the shortest decimal writing of `n` to `out`.
pub fn push_decimal(out: &mut String, n: u32)
    ensures
        final(out)@ == old(out)@ + decimal_digits(n as nat),
    decreases n,
{
    if n >= 10 {
        push_decimal(out, n / 10);
    }
    let d: u32 = n % 10;
    let c = ((d + 48) as u8) as char;
    push_char(out, c);
    proof {
        if n >= 10 {
            assert(((n as nat) / 10) == (n / 10) as nat);
        }
    }
}

/// How the value token of a settings line is read.
#[derive(PartialEq, Eq, Structural, Debug, Clone, Copy)]
pub enum TokenType {
    Int,
    Float,
    Str,
}

/// Number of `'.'` characters in `s`.
pub open spec fn dot_count(s: Seq<char>) -> nat
    decreases s.len(),
{
    if s.len() == 0 {
        0
    } else {
        dot_count(s.drop_last()) + (if s.last() == '.' { 1nat } else { 0nat })
    }
}

/// Every character of `s` is a decimal digit or a `'.'`.
pub open spec fn digits_and_dots(s: Seq<char>) -> bool {
    forall|i: int| 0 <= i < s.len() ==> #[trigger] is_digit(s[i]) || s[i] == '.'
}

/// Digits only read as an integer, digits around a single `'.'` as a float,
/// anything else as text.
pub open spec fn token_type(s: Seq<char>) -> TokenType {
    if !digits_and_dots(s) {
        TokenType::Str
    } else if dot_count(s) == 0 {
        TokenType::Int
    } else if dot_count(s) == 1 {
        TokenType::Float
    } else {
        TokenType::Str
    }
}

/// A prefix of `s` holds no more dots than `s`.
pub proof fn lemma_dot_prefix_le(s: Seq<char>, i: int)
    requires
        0 <= i <= s.len(),
    ensures
        dot_count(s.take(i)) <= dot_count(s),
    decreases s.len() - i,
{
    if i < s.len() {
        lemma_dot_prefix_le(s, i + 1);
        assert(s.take(i + 1).drop_last() =~= s.take(i));
    } else {
        assert(s.take(i) =~= s);
    }
}

/// A string of digits holds no dots.
pub proof fn lemma_digits_no_dots(s: Seq<char>)
    requires
        all_digits(s),
    ensures
        dot_count(s) == 0,
    decreases s.len(),
{
    if s.len() > 0 {
        assert(is_digit(s.last()));
        lemma_digits_no_dots(s.drop_last());
    }
}

/// A `'.'` anywhere in `s` is counted.
pub proof fn lemma_dot_in(s: Seq<char>, i: int)
    requires
        0 <= i < s.len(),
        s[i] == '.',
    ensures
        dot_count(s) > 0,
    decreases s.len(),
{
    if i < s.len() - 1 {
        lemma_dot_in(s.drop_last(), i);
    }
}

/// Classifies a value token, scanning it from the left.
pub fn classify_token(t: &Vec<char>) -> (r: TokenType)
    ensures
        r == token_type(t@),
{
    let mut token_type = TokenType::Int;
    let mut i: usize = 0;
    while i < t.len()
        invariant
            i <= t@.len(),
            digits_and_dots(t@.take(i as int)),
            dot_count(t@.take(i as int)) <= 1,
            token_type == (if dot_count(t@.take(i as int)) == 0 {
                TokenType::Int
            } else {
                TokenType::Float
            }),
        decreases t@.len() - i,
    {
        let ch = t[i];
        let ghost pre = t@.take(i as int);
        let ghost post = t@.take(i as int + 1);
        assert(post.drop_last() =~= pre);
        if (ch as u32) < 48 || (ch as u32) > 57 {
            if ch == '.' {
                if token_type == TokenType::Float {
                    proof {
                        lemma_dot_prefix_le(t@, i as int + 1);
                    }
                    return TokenType::Str;
                }
                token_type = TokenType::Float;
            } else {
                assert(!(is_digit(t@[i as int]) || t@[i as int] == '.'));
                return TokenType::Str;
            }
        }
        i = i + 1;
        assert forall|k: int| 0 <= k < i implies #[trigger] is_digit(t@.take(i as int)[k])
            || t@.take(i as int)[k] == '.' by {
            if k < i - 1 {
                assert(t@.take(i as int)[k] == pre[k]);
            }
        }
    }
    proof {
        assert(t@.take(i as int) =~= t@);
    }
    token_type
}

/// Every token of a line holds at least one character.
pub proof fn lemma_tokens_nonempty(s: Seq<char>)
    ensures
        forall|k: int|
            0 <= k < split_whitespace(s).len() ==> #[trigger] split_whitespace(s)[k].len() > 0,
    decreases s.len(),
{
    if s.len() > 0 {
        lemma_tokens_nonempty(s.drop_last());
        let t = split_whitespace(s.drop_last());
        let c = s.last();
        if is_ws(c) {
            assert(split_whitespace(s) == t);
        } else if s.len() >= 2 && !is_ws(s[s.len() - 2]) {
            assert(s.drop_last().last() == s[s.len() - 2]);
            lemma_split_nonempty(s.drop_last());
            let u = t.update(t.len() - 1, t.last().push(c));
            assert(split_whitespace(s) == u);
            assert forall|k: int| 0 <= k < u.len() implies #[trigger] u[k].len() > 0 by {
                if k != t.len() - 1 {
                    assert(u[k] == t[k]);
                }
            }
        } else {
            let u = t.push(seq![c]);
            assert(split_whitespace(s) == u);
            assert forall|k: int| 0 <= k < u.len() implies #[trigger] u[k].len() > 0 by {
                if k < t.len() {
                    assert(u[k] == t[k]);
                }
            }
        }
    }
}

/// No character of `s` is whitespace.
pub open spec fn no_ws(s: Seq<char>) -> bool {
    forall|i: int| 0 <= i < s.len() ==> !#[trigger] is_ws(s[i])
}

/// A non-empty run of non-whitespace characters is a single token.
pub proof fn lemma_split_single(w: Seq<char>)
    requires
        w.len() > 0,
        no_ws(w),
    ensures
        split_whitespace(w) == seq![w],
    decreases w.len(),
{
    let c = w.last();
    assert(!is_ws(c));
    if w.len() == 1 {
        assert(w.drop_last() =~= Seq::<char>::empty());
        assert(split_whitespace(w.drop_last()).len() == 0);
        assert(split_whitespace(w) == split_whitespace(w.drop_last()).push(seq![c]));
        assert(seq![c] =~= w);
        assert(split_whitespace(w) =~= seq![w]);
    } else {
        lemma_split_single(w.drop_last());
        assert(!is_ws(w[w.len() - 2]));
        let t = split_whitespace(w.drop_last());
        assert(t == seq![w.drop_last()]);
        assert(split_whitespace(w) == t.update(t.len() - 1, t.last().push(c)));
        assert(w.drop_last().push(c) =~= w);
        assert(split_whitespace(w) =~= seq![w]);
    }
}

/// A whitespace character followed by a non-empty run of non-whitespace
/// characters adds that run as one more token.
pub proof fn lemma_split_append_word(s: Seq<char>, c: char, w: Seq<char>)
    requires
        is_ws(c),
        w.len() > 0,
        no_ws(w),
    ensures
        split_whitespace(s.push(c) + w) == split_whitespace(s).push(w),
    decreases w.len(),
{
    let whole = s.push(c) + w;
    let x = w.last();
    assert(!is_ws(x));
    assert(whole.last() == x);
    if w.len() == 1 {
        assert(whole.drop_last() =~= s.push(c));
        assert(s.push(c).drop_last() =~= s);
        assert(s.push(c).last() == c);
        assert(split_whitespace(s.push(c)) == split_whitespace(s));
        assert(whole[whole.len() - 2] == c);
        assert(split_whitespace(whole) == split_whitespace(s).push(seq![x]));
        assert(seq![x] =~= w);
    } else {
        lemma_split_append_word(s, c, w.drop_last());
        assert(whole.drop_last() =~= s.push(c) + w.drop_last());
        assert(whole[whole.len() - 2] == w[w.len() - 2]);
        assert(!is_ws(w[w.len() - 2]));
        let t = split_whitespace(s.push(c) + w.drop_last());
        assert(t == split_whitespace(s).push(w.drop_last()));
        assert(split_whitespace(whole) == t.update(t.len() - 1, t.last().push(x)));
        assert(w.drop_last().push(x) =~= w);
        assert(split_whitespace(whole) =~= split_whitespace(s).push(w));
    }
}

/// The characters of a string slice, in order.
pub fn chars_of(line: &str) -> (v: Vec<char>)
    ensures
        v@ == line@,
{
    broadcast use vstd::string::group_string_axioms;

    let mut v: Vec<char> = Vec::new();
    for c in it: line.chars()
        invariant
            v@ == it.seq().take(it.index()),
            it.seq() == line@,
    {
        v.push(c);
    }
    v
}

/// The whitespace-separated tokens of `s`.
pub fn tokenize(s: &Vec<char>) -> (toks: Vec<Vec<char>>)
    ensures
        toks@.len() == split_whitespace(s@).len(),
        forall|k: int| 0 <= k < toks@.len() ==> #[trigger] toks@[k]@ == split_whitespace(s@)[k],
{
    let mut toks: Vec<Vec<char>> = Vec::new();
    let mut i: usize = 0;
    while i < s.len()
        invariant
            i <= s@.len(),
            toks@.len() == split_whitespace(s@.take(i as int)).len(),
            forall|k: int|
                0 <= k < toks@.len() ==> #[trigger] toks@[k]@ == split_whitespace(
                    s@.take(i as int),
                )[k],
        decreases s@.len() - i,
    {
        let c = s[i];
        let ghost pre = s@.take(i as int);
        let ghost post = s@.take(i as int + 1);
        assert(post.drop_last() =~= pre);
        assert(post.last() == c);
        if is_whitespace(c) {
        } else if i >= 1 && !is_whitespace(s[i - 1]) {
            proof {
                assert(pre.last() == s@[i - 1]);
                lemma_split_nonempty(pre);
                assert(post[post.len() - 2] == s@[i - 1]);
            }
            let mut last = toks.pop().unwrap();
            last.push(c);
            toks.push(last);
        } else {
            let mut fresh: Vec<char> = Vec::new();
            fresh.push(c);
            toks.push(fresh);
            proof {
                assert(fresh@ =~= seq![c]);
                if i >= 1 {
                    assert(post[post.len() - 2] == s@[i - 1]);
                }
            }
        }
        i = i + 1;
    }
    proof {
        assert(s@.take(i as int) =~= s@);
    }
    toks
}

} // verus!
