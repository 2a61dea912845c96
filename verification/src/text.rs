//! Text helpers: blankness, byte lengths, comparison and number formatting.
use vstd::prelude::*;
use vstd::string::*;
use vstd::utf8::*;

verus! {

/// Whether `c` has the Unicode `White_Space` property.
pub open spec fn is_white_space(c: char) -> bool {
    ||| '\u{9}' <= c <= '\u{d}'
    ||| c == '\u{20}'
    ||| c == '\u{85}'
    ||| c == '\u{a0}'
    ||| c == '\u{1680}'
    ||| '\u{2000}' <= c <= '\u{200a}'
    ||| c == '\u{2028}'
    ||| c == '\u{2029}'
    ||| c == '\u{202f}'
    ||| c == '\u{205f}'
    ||| c == '\u{3000}'
}

/// `s` without its leading white space.
pub open spec fn trim_start(s: Seq<char>) -> Seq<char>
    decreases s.len(),
{
    if s.len() > 0 && is_white_space(s[0]) {
        trim_start(s.drop_first())
    } else {
        s
    }
}

/// `s` without its trailing white space.
pub open spec fn trim_end(s: Seq<char>) -> Seq<char>
    decreases s.len(),
{
    if s.len() > 0 && is_white_space(s.last()) {
        trim_end(s.drop_last())
    } else {
        s
    }
}

/// `s` without the white space at either end.
pub open spec fn trimmed(s: Seq<char>) -> Seq<char> {
    trim_end(trim_start(s))
}

/// Whether `s` holds nothing but white space.
pub open spec fn is_blank(s: Seq<char>) -> bool {
    forall|i: int| 0 <= i < s.len() ==> is_white_space(#[trigger] s[i])
}

/// Number of bytes that `s` takes in UTF-8.
pub open spec fn byte_length(s: Seq<char>) -> nat {
    encode_utf8(s).len()
}

/// The text that may be there.
pub open spec fn optional_text(text: Option<String>) -> Option<Seq<char>> {
    match text {
        Some(held) => Some(held@),
        None => None,
    }
}

/// The text that may be lent.
pub open spec fn lent_text(text: Option<&str>) -> Option<Seq<char>> {
    match text {
        Some(held) => Some(held@),
        None => None,
    }
}

/// `str::trim`: the slice without leading and trailing characters that have
/// the Unicode `White_Space` property.
pub assume_specification[ str::trim ](s: &str) -> (r: &str)
    ensures
        r@ == trimmed(s@),
;

/// Trimming from the left keeps a suffix that starts with a visible character.
proof fn lemma_trim_start(s: Seq<char>)
    ensures
        trim_start(s).len() <= s.len(),
        trim_start(s) == s.skip(s.len() - trim_start(s).len()),
        is_blank(s.take(s.len() - trim_start(s).len())),
        trim_start(s).len() > 0 ==> !is_white_space(trim_start(s)[0]),
    decreases s.len(),
{
    if s.len() > 0 && is_white_space(s[0]) {
        let rest = s.drop_first();
        lemma_trim_start(rest);
        let t = trim_start(rest);
        assert(s.skip(s.len() - t.len()) =~= rest.skip(rest.len() - t.len()));
        let head = s.take(s.len() - t.len());
        assert forall|i: int| 0 <= i < head.len() implies is_white_space(#[trigger] head[i]) by {
            if i > 0 {
                assert(head[i] == rest.take(rest.len() - t.len())[i - 1]);
            }
        }
    } else {
        assert(s.skip(0) =~= s);
        assert(s.take(0).len() == 0);
    }
}

/// Trimming from the right keeps a prefix that ends with a visible character.
proof fn lemma_trim_end(s: Seq<char>)
    ensures
        trim_end(s).len() <= s.len(),
        trim_end(s) == s.take(trim_end(s).len() as int),
        trim_end(s).len() > 0 ==> !is_white_space(trim_end(s).last()),
        is_blank(s) ==> trim_end(s).len() == 0,
        s.len() > 0 && !is_white_space(s[0]) ==> trim_end(s).len() > 0,
    decreases s.len(),
{
    if s.len() > 0 && is_white_space(s.last()) {
        let rest = s.drop_last();
        lemma_trim_end(rest);
        assert(s.take(trim_end(rest).len() as int) =~= rest.take(trim_end(rest).len() as int));
        if is_blank(s) {
            assert forall|i: int| 0 <= i < rest.len() implies is_white_space(
                #[trigger] rest[i],
            ) by {
                assert(rest[i] == s[i]);
            }
        }
    } else {
        assert(s.take(s.len() as int) =~= s);
        if s.len() > 0 {
            assert(!is_white_space(s[s.len() - 1]));
        }
    }
}

/// A text is blank exactly when nothing is left of it after trimming.
pub proof fn lemma_blank_iff_trimmed_empty(s: Seq<char>)
    ensures
        is_blank(s) <==> trimmed(s).len() == 0,
{
    lemma_trim_start(s);
    lemma_trim_end(trim_start(s));
    let t = trim_start(s);
    if is_blank(s) && t.len() > 0 {
        assert(t[0] == s[s.len() - t.len()]);
    }
    if t.len() == 0 {
        assert(s.take(s.len() as int) =~= s);
    }
}

/// A trimmed text is blank only when it is empty, and trimming it again
/// changes nothing.
pub proof fn lemma_trimmed_is_stable(s: Seq<char>)
    ensures
        trimmed(trimmed(s)) == trimmed(s),
        trimmed(s).len() <= s.len(),
        is_blank(trimmed(s)) <==> trimmed(s).len() == 0,
{
    lemma_trim_start(s);
    let t = trim_start(s);
    lemma_trim_end(t);
    let u = trim_end(t);
    if u.len() > 0 {
        assert(u[0] == t[0]);
        assert(trim_start(u) == u);
        assert(trim_end(u) == u);
        assert(!is_white_space(u[0]));
    }
}

/// Whether `s` holds nothing but white space.
pub fn blank(s: &str) -> (r: bool)
    ensures
        r == is_blank(s@),
{
    proof {
        lemma_blank_iff_trimmed_empty(s@);
    }
    s.trim().is_empty()
}

/// Number of bytes that `s` takes in UTF-8.
pub fn byte_len(s: &str) -> (n: usize)
    ensures
        n == byte_length(s@),
{
    s.as_bytes().len()
}

/// Two texts are the same when their encodings are.
pub proof fn lemma_encoding_injective(a: Seq<char>, b: Seq<char>)
    ensures
        encode_utf8(a) == encode_utf8(b) <==> a == b,
{
    encode_utf8_decode_utf8(a);
    encode_utf8_decode_utf8(b);
}

/// The encoding of a joined text is that of its parts, joined.
pub proof fn lemma_encoding_append(a: Seq<char>, b: Seq<char>)
    ensures
        encode_utf8(a + b) == encode_utf8(a) + encode_utf8(b),
    decreases a.len(),
{
    if a.len() == 0 {
        assert(a + b =~= b);
        assert(encode_utf8(a) + encode_utf8(b) =~= encode_utf8(b));
    } else {
        lemma_encoding_append(a.drop_first(), b);
        assert((a + b).drop_first() =~= a.drop_first() + b);
        assert(encode_utf8(a + b) =~= encode_utf8(a) + encode_utf8(b));
    }
}

/// Trimming never makes a text longer, in bytes either.
pub proof fn lemma_trimmed_length(s: Seq<char>)
    ensures
        byte_length(trimmed(s)) <= byte_length(s),
{
    let t = trim_start(s);
    let u = trim_end(t);
    lemma_trim_start(s);
    lemma_trim_end(t);
    let head = s.take(s.len() - t.len());
    let tail = t.skip(u.len() as int);
    assert(s =~= head + t);
    assert(t =~= u + tail);
    lemma_encoding_append(head, t);
    lemma_encoding_append(u, tail);
}

/// Two texts that are each followed by the same mark, which neither holds, are
/// told apart by what they are joined to.
pub proof fn lemma_split_at_mark(
    a: Seq<char>,
    rest_a: Seq<char>,
    b: Seq<char>,
    rest_b: Seq<char>,
    mark: char,
)
    requires
        !a.contains(mark),
        !b.contains(mark),
        a + seq![mark] + rest_a == b + seq![mark] + rest_b,
    ensures
        a == b,
        rest_a == rest_b,
{
    let whole = a + seq![mark] + rest_a;
    if a.len() < b.len() {
        assert(whole[a.len() as int] == mark);
        assert(b[a.len() as int] == mark);
    }
    if b.len() < a.len() {
        assert((b + seq![mark] + rest_b)[b.len() as int] == mark);
        assert(a[b.len() as int] == mark);
    }
    assert(a =~= whole.take(a.len() as int));
    assert(b =~= whole.take(a.len() as int));
    assert(rest_a =~= whole.skip(a.len() as int + 1));
    assert(rest_b =~= whole.skip(a.len() as int + 1));
}

/// Whether two byte slices hold the same bytes.
pub fn same_bytes(a: &[u8], b: &[u8]) -> (r: bool)
    ensures
        r == (a@ == b@),
{
    if a.len() != b.len() {
        return false;
    }
    let mut i: usize = 0;
    while i < a.len()
        invariant
            a@.len() == b@.len(),
            i <= a@.len(),
            forall|j: int| 0 <= j < i ==> a@[j] == b@[j],
        decreases a@.len() - i,
    {
        if a[i] != b[i] {
            return false;
        }
        i += 1;
    }
    assert(a@ =~= b@);
    true
}

/// Whether two texts hold the same characters.
pub fn same_text(a: &str, b: &str) -> (r: bool)
    ensures
        r == (a@ == b@),
{
    proof {
        lemma_encoding_injective(a@, b@);
    }
    same_bytes(a.as_bytes(), b.as_bytes())
}

/// `head` followed by `tail`.
pub fn joined(head: &str, tail: &str) -> (r: String)
    ensures
        r@ == head@ + tail@,
{
    let mut r = head.to_owned();
    r.append(tail);
    r
}

/// The decimal digit `d`.
pub open spec fn digit_char(d: nat) -> char {
    (0x30 + d) as char
}

/// `n` in decimal, without leading zeros.
pub open spec fn decimal_text(n: nat) -> Seq<char>
    decreases n,
{
    if n < 10 {
        seq![digit_char(n)]
    } else {
        decimal_text(n / 10).push(digit_char(n % 10))
    }
}

/// The text of one decimal digit.
fn digit(d: u64) -> (r: &'static str)
    requires
        d < 10,
    ensures
        r@ == seq![digit_char(d as nat)],
{
    proof {
        reveal_strlit("0");
        reveal_strlit("1");
        reveal_strlit("2");
        reveal_strlit("3");
        reveal_strlit("4");
        reveal_strlit("5");
        reveal_strlit("6");
        reveal_strlit("7");
        reveal_strlit("8");
        reveal_strlit("9");
    }
    match d {
        0 => "0",
        1 => "1",
        2 => "2",
        3 => "3",
        4 => "4",
        5 => "5",
        6 => "6",
        7 => "7",
        8 => "8",
        _ => "9",
    }
}

/// Write `n` in decimal.
pub fn decimal(n: u64) -> (r: String)
    ensures
        r@ == decimal_text(n as nat),
    decreases n,
{
    if n < 10 {
        digit(n).to_owned()
    } else {
        let mut r = decimal(n / 10);
        r.append(digit(n % 10));
        assert(r@ =~= decimal_text(n as nat));
        r
    }
}

/// White space in front of a text is not seen by what trims it from the left.
proof fn lemma_trim_start_skips(head: Seq<char>, rest: Seq<char>)
    requires
        forall|i: int| 0 <= i < head.len() ==> is_white_space(#[trigger] head[i]),
    ensures
        trim_start(head + rest) == trim_start(rest),
    decreases head.len(),
{
    if head.len() == 0 {
        assert(head + rest =~= rest);
    } else {
        let shorter = head.drop_first();
        assert(is_white_space(head[0]));
        assert((head + rest)[0] == head[0]);
        assert((head + rest).drop_first() =~= shorter + rest);
        assert forall|i: int| 0 <= i < shorter.len() implies is_white_space(
            #[trigger] shorter[i],
        ) by {
            assert(shorter[i] == head[i + 1]);
        }
        lemma_trim_start_skips(shorter, rest);
    }
}

/// White space behind a text is not seen by what trims it from the right.
proof fn lemma_trim_end_skips(rest: Seq<char>, tail: Seq<char>)
    requires
        forall|i: int| 0 <= i < tail.len() ==> is_white_space(#[trigger] tail[i]),
    ensures
        trim_end(rest + tail) == trim_end(rest),
    decreases tail.len(),
{
    if tail.len() == 0 {
        assert(rest + tail =~= rest);
    } else {
        let shorter = tail.drop_last();
        assert(is_white_space(tail[tail.len() - 1]));
        assert((rest + tail).last() == tail.last());
        assert((rest + tail).drop_last() =~= rest + shorter);
        assert forall|i: int| 0 <= i < shorter.len() implies is_white_space(
            #[trigger] shorter[i],
        ) by {
            assert(shorter[i] == tail[i]);
        }
        lemma_trim_end_skips(rest, shorter);
    }
}

/// Trimming takes away the white space at the ends and nothing else: what stands
/// between, from its first to its last visible character, is left whole.
pub proof fn law_trimming_takes_only_white_space(
    head: Seq<char>,
    token: Seq<char>,
    tail: Seq<char>,
)
    requires
        forall|i: int| 0 <= i < head.len() ==> is_white_space(#[trigger] head[i]),
        forall|i: int| 0 <= i < tail.len() ==> is_white_space(#[trigger] tail[i]),
        token.len() > 0 ==> !is_white_space(token[0]) && !is_white_space(token.last()),
    ensures
        trimmed(head + token + tail) == token,
{
    assert(head + token + tail =~= head + (token + tail));
    lemma_trim_start_skips(head, token + tail);
    if token.len() == 0 {
        assert(token + tail =~= tail + Seq::empty());
        lemma_trim_start_skips(tail, Seq::empty());
        assert(trimmed(head + token + tail) =~= token);
    } else {
        assert((token + tail)[0] == token[0]);
        lemma_trim_end_skips(token, tail);
    }
}

/// The number that decimal digits stand for.
pub open spec fn decimal_value(digits: Seq<char>) -> nat {
    digits.fold_left(0nat, |value: nat, digit: char| (10 * value + (digit as int - 0x30)) as nat)
}

/// A number is read back from its decimal text, which is made of digits and does
/// not begin with a zero unless it is one. No other text is like that.
pub proof fn law_decimals_read_back(n: nat)
    ensures
        decimal_value(decimal_text(n)) == n,
        decimal_text(n).len() > 0,
        forall|i: int|
            0 <= i < decimal_text(n).len() ==> '0' <= #[trigger] decimal_text(n)[i] <= '9',
        decimal_text(n)[0] == '0' ==> decimal_text(n).len() == 1,
    decreases n,
{
    reveal_with_fuel(Seq::fold_left, 2);
    let text = decimal_text(n);
    if n < 10 {
        assert(text.drop_last() =~= Seq::empty());
        assert(text.last() as int - 0x30 == n);
    } else {
        law_decimals_read_back(n / 10);
        let front = decimal_text(n / 10);
        assert(text.drop_last() =~= front);
        assert(text.last() as int - 0x30 == n % 10);
        assert(front[0] == text[0]);
        if text[0] == '0' {
            assert(front.len() == 1);
            assert(front.drop_last() =~= Seq::empty());
            assert(decimal_value(front) == 0);
        }
    }
}

/// Whether `s` has a character that is not white space.
pub open spec fn shows_something(s: Seq<char>) -> bool {
    exists|k: int| 0 <= k < s.len() && !is_white_space(#[trigger] s[k])
}

/// A text is blank exactly when it shows nothing.
pub proof fn law_blank_texts_show_nothing(s: Seq<char>)
    ensures
        is_blank(s) <==> !shows_something(s),
{
    if !is_blank(s) {
        let k = choose|k: int| 0 <= k < s.len() && !is_white_space(#[trigger] s[k]);
        assert(!is_white_space(s[k]));
    }
}

/// A text that may be missing is seen as it is, or as missing.
pub proof fn law_optional_texts_are_seen_as_they_are(held: String, lent: &str)
    ensures
        optional_text(Some(held)) == Some(held@),
        optional_text(None) is None,
        lent_text(Some(lent)) == Some(lent@),
        lent_text(None) is None,
{
}

} // verus!
