//! Text primitives: comparing, searching, trimming, numbers in decimal.
//!
//! Every text is modelled as the sequence of its characters.

use vstd::prelude::*;
use vstd::string::*;

verus! {

/// `String::push` puts one character at the end of the text.
pub assume_specification[ String::push ](s: &mut String, c: char)
    ensures
        final(s)@ == old(s)@.push(c),
;

/// `str::trim` takes away white space at both ends and nothing else.
pub assume_specification[ str::trim ](s: &str) -> (r: &str)
    ensures
        r@ == trimmed(s@),
;

/// What `str::to_lowercase` returns for a text.
pub uninterp spec fn lowercase(text: Seq<char>) -> Seq<char>;

/// `str::to_lowercase` maps a text to its lower case. Nothing is said here of
/// what the lower case of a given text is.
pub assume_specification[ str::to_lowercase ](s: &str) -> (r: String)
    ensures
        r@ == lowercase(s@),
;

/// The characters with the Unicode property `White_Space`.
pub open spec fn is_white_space(c: char) -> bool {
    let n = c as u32;
    ||| 0x09 <= n <= 0x0d
    ||| n == 0x20
    ||| n == 0x85
    ||| n == 0xa0
    ||| n == 0x1680
    ||| 0x2000 <= n <= 0x200a
    ||| n == 0x2028
    ||| n == 0x2029
    ||| n == 0x202f
    ||| n == 0x205f
    ||| n == 0x3000
}

/// `text` without the white space at its two ends.
pub open spec fn trimmed(text: Seq<char>) -> Seq<char>
    decreases text.len(),
{
    if text.len() > 0 && is_white_space(text.first()) {
        trimmed(text.drop_first())
    } else if text.len() > 0 && is_white_space(text.last()) {
        trimmed(text.drop_last())
    } else {
        text
    }
}

/// `text` without the run of `c` that it ends with.
pub open spec fn without_trailing(text: Seq<char>, c: char) -> Seq<char>
    decreases text.len(),
{
    if text.len() > 0 && text.last() == c {
        without_trailing(text.drop_last(), c)
    } else {
        text
    }
}

/// Whether `piece` stands in `text` from position `at` on.
pub open spec fn stands_at(text: Seq<char>, piece: Seq<char>, at: int) -> bool {
    &&& 0 <= at
    &&& at + piece.len() <= text.len()
    &&& text.subrange(at, at + piece.len()) == piece
}

/// Whether `piece` stands somewhere in `text`.
pub open spec fn has_piece(text: Seq<char>, piece: Seq<char>) -> bool {
    exists|at: int| #[trigger] stands_at(text, piece, at)
}

/// The texts that a list of strings holds.
pub open spec fn texts(v: Seq<String>) -> Seq<Seq<char>> {
    Seq::new(v.len(), |i: int| v[i]@)
}

/// The text of an optional string.
pub open spec fn opt_text(v: Option<String>) -> Option<Seq<char>> {
    match v {
        Some(s) => Some(s@),
        None => None,
    }
}

/// A failure with its message as a text.
pub open spec fn err_text<T>(v: Result<T, String>) -> Result<T, Seq<char>> {
    match v {
        Ok(t) => Ok(t),
        Err(e) => Err(e@),
    }
}

/// Either text with its characters.
pub open spec fn outcome_text(v: Result<String, String>) -> Result<Seq<char>, Seq<char>> {
    match v {
        Ok(s) => Ok(s@),
        Err(e) => Err(e@),
    }
}

/// Whether two texts hold the same characters.
pub fn text_eq(a: &str, b: &str) -> (r: bool)
    ensures
        r == (a@ == b@),
{
    a.to_owned() == b.to_owned()
}

/// Two texts, one after the other.
pub fn join2(a: &str, b: &str) -> (r: String)
    ensures
        r@ == a@ + b@,
{
    let mut out = a.to_owned();
    out.append(b);
    out
}

/// Three texts, one after the other.
pub fn join3(a: &str, b: &str, c: &str) -> (r: String)
    ensures
        r@ == a@ + b@ + c@,
{
    let mut out = join2(a, b);
    out.append(c);
    out
}

/// Four texts, one after the other.
pub fn join4(a: &str, b: &str, c: &str, d: &str) -> (r: String)
    ensures
        r@ == a@ + b@ + c@ + d@,
{
    let mut out = join3(a, b, c);
    out.append(d);
    out
}

/// Five texts, one after the other.
pub fn join5(a: &str, b: &str, c: &str, d: &str, e: &str) -> (r: String)
    ensures
        r@ == a@ + b@ + c@ + d@ + e@,
{
    let mut out = join4(a, b, c, d);
    out.append(e);
    out
}

/// The characters of a text, in order.
pub fn chars_of(text: &str) -> (r: Vec<char>)
    ensures
        r@ == text@,
{
    let mut out: Vec<char> = Vec::new();
    for c in it: text.chars()
        invariant
            it.seq() == text@,
            out@ == it.seq().take(it.index() as int),
    {
        out.push(c);
    }
    out
}

/// The text of the characters from position `from` up to `to`.
pub fn text_between(chars: &Vec<char>, from: usize, to: usize) -> (r: String)
    requires
        from <= to <= chars@.len(),
    ensures
        r@ == chars@.subrange(from as int, to as int),
{
    let mut out = String::new();
    let mut i: usize = from;
    while i < to
        invariant
            from <= i <= to <= chars@.len(),
            out@ == chars@.subrange(from as int, i as int),
        decreases to - i,
    {
        out.push(chars[i]);
        i = i + 1;
        assert(chars@.subrange(from as int, i as int) =~= chars@.subrange(
            from as int,
            i - 1,
        ).push(chars@[i - 1]));
    }
    out
}

fn piece_at(text: &Vec<char>, piece: &Vec<char>, at: usize) -> (r: bool)
    requires
        at + piece@.len() <= text@.len(),
    ensures
        r == stands_at(text@, piece@, at as int),
{
    let mut i: usize = 0;
    let size: usize = text.len();
    while i < piece.len()
        invariant
            0 <= i <= piece@.len(),
            at + piece@.len() <= text@.len(),
            size == text@.len(),
            forall|j: int| 0 <= j < i ==> text@[at + j] == piece@[j],
        decreases piece.len() - i,
    {
        if text[at + i] != piece[i] {
            proof {
                if text@.subrange(at as int, at + piece@.len()) == piece@ {
                    assert(text@.subrange(at as int, at + piece@.len())[i as int] == piece@[
                        i as int
                    ]);
                }
            }
            return false;
        }
        i = i + 1;
    }
    assert(text@.subrange(at as int, at + piece@.len()) =~= piece@);
    true
}

/// Whether `piece` stands somewhere in `text`.
pub fn contains_text(text: &str, piece: &str) -> (r: bool)
    ensures
        r == has_piece(text@, piece@),
{
    let t = chars_of(text);
    let p = chars_of(piece);
    if p.len() > t.len() {
        return false;
    }
    let mut at: usize = 0;
    let end: usize = t.len() - p.len();
    while at < end
        invariant
            t@ == text@,
            p@ == piece@,
            end + p@.len() == t@.len(),
            at <= end,
            forall|k: int| 0 <= k < at ==> !stands_at(text@, piece@, k),
        decreases end - at,
    {
        if piece_at(&t, &p, at) {
            return true;
        }
        at = at + 1;
    }
    piece_at(&t, &p, end)
}

/// `text` without the run of `c` that it ends with.
pub fn strip_trailing(text: &str, c: char) -> (r: String)
    ensures
        r@ == without_trailing(text@, c),
{
    let chars = chars_of(text);
    let mut end: usize = chars.len();
    assert(chars@.subrange(0, end as int) =~= text@);
    while end > 0 && chars[end - 1] == c
        invariant
            end <= chars@.len(),
            without_trailing(chars@.subrange(0, end as int), c) == without_trailing(text@, c),
        decreases end,
    {
        assert(chars@.subrange(0, end as int).drop_last() =~= chars@.subrange(0, end - 1));
        end = end - 1;
    }
    text_between(&chars, 0, end)
}

/// Whether `a` comes before `b`, or is `b`, when texts are ordered character
/// by character.
pub open spec fn text_le(a: Seq<char>, b: Seq<char>) -> bool
    decreases a.len(),
{
    if a.len() == 0 {
        true
    } else if b.len() == 0 {
        false
    } else if a.first() == b.first() {
        text_le(a.drop_first(), b.drop_first())
    } else {
        a.first() < b.first()
    }
}

/// Whether `a` comes before `b`, or is `b`, in the order of texts.
pub fn not_after(a: &str, b: &str) -> (r: bool)
    ensures
        r == text_le(a@, b@),
{
    let x = chars_of(a);
    let y = chars_of(b);
    let mut i: usize = 0;
    assert(x@.skip(0) =~= a@);
    assert(y@.skip(0) =~= b@);
    while i < x.len() && i < y.len()
        invariant
            i <= x@.len(),
            i <= y@.len(),
            text_le(a@, b@) == text_le(x@.skip(i as int), y@.skip(i as int)),
        decreases x.len() - i,
    {
        if x[i] != y[i] {
            return x[i] < y[i];
        }
        assert(x@.skip(i as int).drop_first() =~= x@.skip(i + 1));
        assert(y@.skip(i as int).drop_first() =~= y@.skip(i + 1));
        i = i + 1;
    }
    i == x.len()
}

/// The decimal digits of a natural number.
pub open spec fn nat_text(n: nat) -> Seq<char>
    decreases n,
{
    if n < 10 {
        seq![(48 + n) as char]
    } else {
        nat_text(n / 10).push((48 + n % 10) as char)
    }
}

/// A whole number in decimal, with a minus sign where it is negative.
pub open spec fn int_text(n: int) -> Seq<char> {
    if n < 0 {
        seq!['-'] + nat_text((-n) as nat)
    } else {
        nat_text(n as nat)
    }
}

/// A natural number in decimal.
pub fn u64_text(n: u64) -> (r: String)
    ensures
        r@ == nat_text(n as nat),
    decreases n,
{
    if n < 10 {
        let mut out = String::new();
        out.push((48 + n as u8) as char);
        out
    } else {
        let mut out = u64_text(n / 10);
        out.push((48 + (n % 10) as u8) as char);
        out
    }
}

/// A whole number in decimal.
pub fn i64_text(n: i64) -> (r: String)
    ensures
        r@ == int_text(n as int),
{
    if n < 0 {
        let mut out = String::new();
        out.push('-');
        let magnitude: u64 = (-(n as i128)) as u64;
        out.append(u64_text(magnitude).as_str());
        out
    } else {
        u64_text(n as u64)
    }
}

/// The quotient of a whole number by a positive one, cut off towards zero.
pub open spec fn quotient(a: int, b: int) -> int
    recommends
        b > 0,
{
    if a < 0 {
        -((-a) / b)
    } else {
        a / b
    }
}

/// What [`quotient`] leaves over; it has the sign of the dividend.
pub open spec fn remainder(a: int, b: int) -> int
    recommends
        b > 0,
{
    a - b * quotient(a, b)
}

/// The number that decimal digits stand for.
pub open spec fn digits_value(digits: Seq<char>) -> nat
    decreases digits.len(),
{
    if digits.len() == 0 {
        0
    } else {
        10 * digits_value(digits.drop_last()) + (digits.last() as nat - '0' as nat) as nat
    }
}

/// A number in decimal is read back as that number. It is made of digits, and
/// begins with a zero only where it is zero.
pub proof fn law_number_is_read_back(n: nat)
    ensures
        digits_value(nat_text(n)) == n,
        nat_text(n).len() >= 1,
        forall|i: int| 0 <= i < nat_text(n).len() ==> '0' <= #[trigger] nat_text(n)[i] <= '9',
        nat_text(n)[0] == '0' ==> n == 0,
        int_text(n as int) == nat_text(n),
        n > 0 ==> int_text(-n) == seq!['-'] + nat_text(n),
    decreases n,
{
    reveal_with_fuel(digits_value, 2);
    if n < 10 {
        assert(nat_text(n).drop_last() =~= seq![]);
    } else {
        law_number_is_read_back(n / 10);
        assert(nat_text(n).drop_last() =~= nat_text(n / 10));
        assert forall|i: int| 0 <= i < nat_text(n).len() implies '0' <= #[trigger] nat_text(n)[i]
            <= '9' by {
            if i < nat_text(n / 10).len() {
                assert(nat_text(n)[i] == nat_text(n / 10)[i]);
            }
        }
        assert(nat_text(n)[0] == nat_text(n / 10)[0]);
    }
}

/// A quotient is cut off towards zero: it takes out of the dividend as many
/// whole divisors as are in it, with its sign, and what is left is less than
/// one, with the same sign.
pub proof fn law_quotient_is_cut_towards_zero(a: int, b: int)
    requires
        b > 0,
    ensures
        a >= 0 ==> 0 <= b * quotient(a, b) <= a < b * quotient(a, b) + b,
        a <= 0 ==> b * quotient(a, b) - b < a <= b * quotient(a, b) <= 0,
        a == b * quotient(a, b) + remainder(a, b),
{
    let size = if a < 0 {
        -a
    } else {
        a
    };
    let q = size / b;
    vstd::arithmetic::div_mod::lemma_fundamental_div_mod(size, b);
    vstd::arithmetic::div_mod::lemma_mod_bound(size, b);
    vstd::arithmetic::div_mod::lemma_div_pos_is_pos(size, b);
    assert(b * (-q) == -(b * q)) by (nonlinear_arith);
    assert(b * q >= 0) by (nonlinear_arith)
        requires
            b > 0,
            q >= 0,
    ;
}

/// What is stripped from the end of a text is nothing but that character, and
/// all of it.
pub proof fn law_trailing_run_is_stripped(text: Seq<char>, c: char)
    ensures
        without_trailing(text, c).len() <= text.len(),
        without_trailing(text, c) == text.take(without_trailing(text, c).len() as int),
        forall|i: int|
            without_trailing(text, c).len() <= i < text.len() ==> #[trigger] text[i] == c,
        without_trailing(text, c).len() > 0 ==> without_trailing(text, c).last() != c,
    decreases text.len(),
{
    if text.len() > 0 && text.last() == c {
        let less = text.drop_last();
        law_trailing_run_is_stripped(less, c);
        let n = without_trailing(text, c).len() as int;
        assert(less.take(n) =~= text.take(n));
        assert forall|i: int| n <= i < text.len() implies #[trigger] text[i] == c by {
            if i < less.len() {
                assert(less[i] == text[i]);
            }
        }
    } else {
        assert(text.take(text.len() as int) =~= text);
    }
}

/// A piece is in a text exactly where the text is something, the piece, and
/// something more.
pub proof fn law_piece_stands_in_its_text(before: Seq<char>, piece: Seq<char>, after: Seq<char>)
    ensures
        has_piece(before + piece + after, piece),
        forall|text: Seq<char>| #[trigger]
            has_piece(text, piece) ==> exists|at: int|
                0 <= at && at + piece.len() <= text.len() && text == #[trigger] text.take(at)
                    + piece + text.skip(at + piece.len()),
{
    let at = before.len() as int;
    let whole = before + piece + after;
    assert(whole.subrange(at, at + piece.len()) =~= piece);
    assert(stands_at(whole, piece, at));
    assert forall|text: Seq<char>| #[trigger] has_piece(text, piece) implies exists|at: int|
        0 <= at && at + piece.len() <= text.len() && text == #[trigger] text.take(at) + piece
            + text.skip(at + piece.len()) by {
        let at = choose|at: int| #[trigger] stands_at(text, piece, at);
        assert(text =~= text.take(at) + text.subrange(at, at + piece.len()) + text.skip(
            at + piece.len(),
        ));
    }
}

}
