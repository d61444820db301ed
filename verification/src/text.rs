//! Reading and building text, character by character.
use vstd::prelude::*;
use vstd::string::*;

verus! {

/// Whether a character has the Unicode property `White_Space`.
pub open spec fn is_white(c: char) -> bool {
    ||| '\u{9}' <= c <= '\u{d}'
    ||| c == ' '
    ||| c == '\u{85}'
    ||| c == '\u{a0}'
    ||| c == '\u{1680}'
    ||| '\u{2000}' <= c <= '\u{200a}'
    ||| c == '\u{2028}'
    ||| c == '\u{2029}'
    ||| c == '\u{202f}'
    ||| c == '\u{205f}'
    ||| c == '\u{3000}'
}

/// The text without its leading white space.
pub open spec fn trim_front(s: Seq<char>) -> Seq<char>
    decreases s.len(),
{
    if s.len() > 0 && is_white(s[0]) {
        trim_front(s.drop_first())
    } else {
        s
    }
}

/// The text without its trailing white space.
pub open spec fn trim_back(s: Seq<char>) -> Seq<char>
    decreases s.len(),
{
    if s.len() > 0 && is_white(s.last()) {
        trim_back(s.drop_last())
    } else {
        s
    }
}

/// The text without white space at either end.
pub open spec fn trim_text(s: Seq<char>) -> Seq<char> {
    trim_back(trim_front(s))
}

/// `str::trim`: the slice that is left when leading and trailing characters
/// with the property `White_Space` are taken off.
pub assume_specification[ str::trim ](s: &str) -> (res: &str)
    ensures
        res@ == trim_text(s@),
;

/// The characters of a text.
pub fn chars_of(s: &str) -> (res: Vec<char>)
    ensures
        res@ == s@,
{
    let mut out: Vec<char> = Vec::new();
    for c in it: s.chars()
        invariant
            out@ == it.seq().take(it.index() as int),
            it.seq() == s@,
    {
        out.push(c);
    }
    out
}

/// Whether two texts have the same characters.
pub fn same_text(a: &str, b: &str) -> (res: bool)
    ensures
        res == (a@ == b@),
{
    let x = chars_of(a);
    let y = chars_of(b);
    if x.len() != y.len() {
        return false;
    }
    for i in 0..x.len()
        invariant
            x@.len() == y@.len(),
            x@ == a@,
            y@ == b@,
            forall|j: int| 0 <= j < i ==> x@[j] == y@[j],
    {
        if x[i] != y[i] {
            return false;
        }
    }
    assert(x@ == y@);
    true
}

/// The order of texts by their characters: the text that has the lesser
/// character where they first differ, or that ends first, is less.
pub open spec fn text_less(a: Seq<char>, b: Seq<char>) -> bool {
    exists|k: int| first_difference(a, b, k) && (k == a.len() || a[k] < b[k])
}

/// Two texts agree before `k`, and `k` is the end of the first, which the
/// second goes beyond, or a place where they differ.
pub open spec fn first_difference(a: Seq<char>, b: Seq<char>, k: int) -> bool {
    &&& 0 <= k <= a.len()
    &&& k < b.len()
    &&& a.take(k) == b.take(k)
    &&& k < a.len() ==> a[k] != b[k]
}

/// Whether `a` comes before `b` in the order of texts.
pub fn comes_before(a: &str, b: &str) -> (res: bool)
    ensures
        res == text_less(a@, b@),
{
    let x = chars_of(a);
    let y = chars_of(b);
    let mut i: usize = 0;
    while i < x.len() && i < y.len() && x[i] == y[i]
        invariant
            0 <= i <= x@.len(),
            i <= y@.len(),
            x@ == a@,
            y@ == b@,
            a@.take(i as int) == b@.take(i as int),
        decreases x@.len() - i,
    {
        assert(a@.take(i + 1) == a@.take(i as int).push(a@[i as int]));
        assert(b@.take(i + 1) == b@.take(i as int).push(b@[i as int]));
        i += 1;
    }
    proof {
        assert forall|k: int| first_difference(a@, b@, k) implies k == i by {
            if k < i {
                assert(a@.take(i as int)[k] == b@.take(i as int)[k]);
            } else if k > i {
                assert(a@.take(k)[i as int] == b@.take(k)[i as int]);
            }
        }
    }
    if i >= y.len() {
        return false;
    }
    assert(first_difference(a@, b@, i as int));
    i == x.len() || x[i] < y[i]
}

/// Of two texts that differ, one comes before the other.
pub proof fn lemma_less_total(a: Seq<char>, b: Seq<char>)
    ensures
        a == b || text_less(a, b) || text_less(b, a),
    decreases a.len(),
{
    if a.len() == 0 {
        if b.len() > 0 {
            assert(a.take(0) == b.take(0));
            assert(first_difference(a, b, 0));
        } else {
            assert(a =~= b);
        }
    } else if b.len() == 0 {
        assert(a.take(0) == b.take(0));
        assert(first_difference(b, a, 0));
    } else if a[0] != b[0] {
        assert(a.take(0) == b.take(0));
        assert(first_difference(a, b, 0));
        assert(first_difference(b, a, 0));
    } else {
        let (x, y) = (a.drop_first(), b.drop_first());
        lemma_less_total(x, y);
        if x == y {
            assert(a =~= seq![a[0]] + x);
            assert(b =~= seq![a[0]] + y);
        } else if text_less(x, y) {
            lemma_less_extends(a, b);
        } else {
            lemma_less_extends(b, a);
        }
    }
}

/// Texts that begin alike are in the order of what follows.
proof fn lemma_less_extends(a: Seq<char>, b: Seq<char>)
    requires
        a.len() > 0,
        b.len() > 0,
        a[0] == b[0],
        text_less(a.drop_first(), b.drop_first()),
    ensures
        text_less(a, b),
{
    let (x, y) = (a.drop_first(), b.drop_first());
    let k = choose|k: int| first_difference(x, y, k) && (k == x.len() || x[k] < y[k]);
    assert(a.take(k + 1) =~= seq![a[0]] + x.take(k));
    assert(b.take(k + 1) =~= seq![a[0]] + y.take(k));
    assert(first_difference(a, b, k + 1));
}

/// What comes before a text comes before whatever that text comes before.
pub proof fn lemma_less_transitive(a: Seq<char>, b: Seq<char>, c: Seq<char>)
    requires
        text_less(a, b),
        text_less(b, c),
    ensures
        text_less(a, c),
{
    let i = choose|k: int| first_difference(a, b, k) && (k == a.len() || a[k] < b[k]);
    let j = choose|k: int| first_difference(b, c, k) && (k == b.len() || b[k] < c[k]);
    let m = if i <= j {
        i
    } else {
        j
    };
    assert(a.take(m) =~= a.take(i).take(m));
    assert(b.take(m) =~= b.take(i).take(m));
    assert(b.take(m) =~= b.take(j).take(m));
    assert(c.take(m) =~= c.take(j).take(m));
    if i < j {
        assert(b.take(j)[i] == c.take(j)[i]);
    } else if j < i {
        assert(a.take(i)[j] == b.take(i)[j]);
    }
    assert(first_difference(a, c, m));
}

/// Something that text can be made of.
pub trait IntoText: Sized {
    /// The text that it is.
    spec fn text(&self) -> Seq<char>;

    fn into_text(self) -> (res: String)
        ensures
            res@ == self.text(),
    ;
}

impl IntoText for String {
    open spec fn text(&self) -> Seq<char> {
        self@
    }

    fn into_text(self) -> (res: String) {
        self
    }
}

impl IntoText for &str {
    open spec fn text(&self) -> Seq<char> {
        self@
    }

    fn into_text(self) -> (res: String) {
        self.to_owned()
    }
}

/// The text `head`, then `tail`.
pub fn joined(head: &str, tail: &str) -> (res: String)
    ensures
        res@ == head@ + tail@,
{
    let mut out = head.to_owned();
    out.append(tail);
    out
}

/// At most `max` characters of a text, with an ellipsis where some are left out.
pub open spec fn clip_text(s: Seq<char>, max: int) -> Seq<char> {
    if s.len() <= max {
        s
    } else {
        s.take(max) + "…"@
    }
}

/// The text itself when it has at most `max` characters, otherwise its first
/// `max` characters and an ellipsis.
pub fn clip(s: &str, max: usize) -> (res: String)
    ensures
        res@ == clip_text(s@, max as int),
{
    if s.unicode_len() <= max {
        return s.to_owned();
    }
    let head = s.substring_char(0, max);
    joined(head, "…")
}

/// The decimal digit for a number below ten.
pub open spec fn digit(d: int) -> Seq<char> {
    if d == 0 {
        "0"@
    } else if d == 1 {
        "1"@
    } else if d == 2 {
        "2"@
    } else if d == 3 {
        "3"@
    } else if d == 4 {
        "4"@
    } else if d == 5 {
        "5"@
    } else if d == 6 {
        "6"@
    } else if d == 7 {
        "7"@
    } else if d == 8 {
        "8"@
    } else {
        "9"@
    }
}

/// A number in decimal, without leading zeros.
pub open spec fn decimal_text(n: nat) -> Seq<char>
    decreases n,
{
    if n < 10 {
        digit(n as int)
    } else {
        decimal_text(n / 10) + digit((n % 10) as int)
    }
}

/// A number in decimal.
pub fn decimal(n: u64) -> (res: String)
    ensures
        res@ == decimal_text(n as nat),
    decreases n,
{
    let last = match n % 10 {
        0 => "0",
        1 => "1",
        2 => "2",
        3 => "3",
        4 => "4",
        5 => "5",
        6 => "6",
        7 => "7",
        8 => "8",
        _ => "9",
    };
    if n < 10 {
        last.to_owned()
    } else {
        let mut out = decimal(n / 10);
        out.append(last);
        out
    }
}

/// Whether a character is a decimal digit.
pub open spec fn is_digit(c: char) -> bool {
    '0' <= c <= '9'
}

/// The number that a text of decimal digits stands for.
pub open spec fn number_of(digits: Seq<char>) -> nat
    decreases digits.len(),
{
    if digits.len() == 0 {
        0
    } else {
        number_of(digits.drop_last()) * 10 + (digits.last() as nat - '0' as nat) as nat
    }
}

/// What follows the plus sign of a text, where it has one.
pub open spec fn unsigned_part(s: Seq<char>) -> Seq<char> {
    if s.len() > 0 && s[0] == '+' {
        s.drop_first()
    } else {
        s
    }
}

/// Whether every character is a decimal digit.
pub open spec fn all_digits(s: Seq<char>) -> bool {
    forall|i: int| 0 <= i < s.len() ==> is_digit(#[trigger] s[i])
}

/// The number that a text is in decimal: digits, at least one, with or without
/// a plus sign before them, and none too great for 64 bits.
pub open spec fn u64_of(s: Seq<char>) -> Option<u64> {
    let digits = unsigned_part(s);
    if digits.len() > 0 && all_digits(digits) && number_of(digits) <= u64::MAX {
        Some(number_of(digits) as u64)
    } else {
        None
    }
}

/// More digits make a number no smaller.
proof fn lemma_number_grows(digits: Seq<char>, k: int)
    requires
        0 <= k <= digits.len(),
    ensures
        number_of(digits.take(k)) <= number_of(digits),
    decreases digits.len(),
{
    if k < digits.len() {
        lemma_number_grows(digits.drop_last(), k);
        assert(digits.drop_last().take(k) == digits.take(k));
    } else {
        assert(digits.take(k) == digits);
    }
}

/// Read a decimal number of at most 64 bits.
pub fn parse_u64(s: &str) -> (res: Option<u64>)
    ensures
        res == u64_of(s@),
{
    let chars = chars_of(s);
    let start: usize = if chars.len() > 0 && chars[0] == '+' {
        1
    } else {
        0
    };
    let ghost digits = s@.skip(start as int);
    assert(digits == unsigned_part(s@));
    if start >= chars.len() {
        return None;
    }
    let mut value: u64 = 0;
    for i in start..chars.len()
        invariant
            chars@ == s@,
            start <= s@.len(),
            digits == s@.skip(start as int),
            digits == unsigned_part(s@),
            value == number_of(digits.take(i - start)),
            forall|j: int| 0 <= j < i - start ==> is_digit(#[trigger] digits[j]),
    {
        let c = chars[i];
        let ghost k = i - start;
        assert(digits[k] == c);
        if c < '0' || c > '9' {
            assert(!is_digit(digits[k]));
            return None;
        }
        let d = (c as u32 - '0' as u32) as u64;
        proof {
            assert(digits.take(k + 1).drop_last() == digits.take(k));
            assert(number_of(digits.take(k + 1)) == value * 10 + d);
            lemma_number_grows(digits, k + 1);
        }
        if value > (u64::MAX - d) / 10 {
            return None;
        }
        value = value * 10 + d;
    }
    assert(digits.take(s@.len() - start) == digits);
    Some(value)
}

/// The text without the slashes that it ends in.
pub open spec fn without_trailing_slashes(s: Seq<char>) -> Seq<char>
    decreases s.len(),
{
    if s.len() > 0 && s.last() == '/' {
        without_trailing_slashes(s.drop_last())
    } else {
        s
    }
}

/// Leave out the slashes that a text ends in.
pub fn strip_slashes(s: &str) -> (res: &str)
    ensures
        res@ == without_trailing_slashes(s@),
{
    let chars = chars_of(s);
    let mut n: usize = chars.len();
    assert(s@.take(n as int) == s@);
    while n > 0 && chars[n - 1] == '/'
        invariant
            n <= chars@.len(),
            chars@ == s@,
            without_trailing_slashes(s@.take(n as int)) == without_trailing_slashes(s@),
        decreases n,
    {
        assert(s@.take(n as int).drop_last() == s@.take(n - 1));
        n -= 1;
    }
    assert(without_trailing_slashes(s@.take(n as int)) == s@.take(n as int));
    s.substring_char(0, n)
}

/// Leading white space goes, and nothing else.
proof fn lemma_trim_front(before: Seq<char>, s: Seq<char>)
    requires
        forall|i: int| 0 <= i < before.len() ==> is_white(#[trigger] before[i]),
        s.len() > 0 ==> !is_white(s[0]),
    ensures
        trim_front(before + s) == s,
    decreases before.len(),
{
    let all = before + s;
    if before.len() > 0 {
        let rest = before.drop_first();
        assert(is_white(before[0]));
        assert forall|i: int| 0 <= i < rest.len() implies is_white(#[trigger] rest[i]) by {
            assert(rest[i] == before[i + 1]);
        }
        lemma_trim_front(rest, s);
        assert(all.drop_first() =~= rest + s);
    } else {
        assert(all =~= s);
    }
}

/// Trailing white space goes, and nothing else.
proof fn lemma_trim_back(s: Seq<char>, after: Seq<char>)
    requires
        forall|i: int| 0 <= i < after.len() ==> is_white(#[trigger] after[i]),
        s.len() > 0 ==> !is_white(s.last()),
    ensures
        trim_back(s + after) == s,
    decreases after.len(),
{
    let all = s + after;
    if after.len() > 0 {
        let rest = after.drop_last();
        assert(is_white(after[after.len() - 1]));
        assert forall|i: int| 0 <= i < rest.len() implies is_white(#[trigger] rest[i]) by {
            assert(rest[i] == after[i]);
        }
        lemma_trim_back(s, rest);
        assert(all.drop_last() =~= s + rest);
    } else {
        assert(all =~= s);
    }
}

/// White space around a text that has none at its ends is what is taken off.
pub proof fn lemma_trim(before: Seq<char>, s: Seq<char>, after: Seq<char>)
    requires
        forall|i: int| 0 <= i < before.len() ==> is_white(#[trigger] before[i]),
        forall|i: int| 0 <= i < after.len() ==> is_white(#[trigger] after[i]),
        s.len() > 0,
        !is_white(s[0]),
        !is_white(s.last()),
    ensures
        trim_text(before + s + after) == s,
{
    assert(before + s + after =~= before + (s + after));
    lemma_trim_front(before, s + after);
    lemma_trim_back(s, after);
}

/// A text is left empty by trimming if and only if it is white space throughout.
pub proof fn trimming_leaves_what_is_not_white(s: Seq<char>)
    ensures
        trim_text(s).len() == 0 <==> forall|i: int| 0 <= i < s.len() ==> is_white(#[trigger] s[i]),
    decreases s.len(),
{
    if forall|i: int| 0 <= i < s.len() ==> is_white(#[trigger] s[i]) {
        lemma_trim_front(s, Seq::empty());
        assert(s + Seq::<char>::empty() =~= s);
    } else if s.len() > 0 && is_white(s[0]) {
        let rest = s.drop_first();
        trimming_leaves_what_is_not_white(rest);
        let i = choose|i: int| 0 <= i < s.len() && !is_white(#[trigger] s[i]);
        assert(rest[i - 1] == s[i]);
    } else {
        lemma_back_keeps_first(s);
    }
}

/// Trimming at the end keeps a first character that is not white.
proof fn lemma_back_keeps_first(s: Seq<char>)
    requires
        s.len() > 0,
        !is_white(s[0]),
    ensures
        trim_back(s).len() > 0,
    decreases s.len(),
{
    if is_white(s.last()) {
        lemma_back_keeps_first(s.drop_last());
    }
}

/// A text that is clipped is itself where it is short enough; otherwise its first
/// characters stand, as many as there may be, and an ellipsis after them.
pub proof fn clipping_keeps_the_beginning(s: Seq<char>, max: int)
    requires
        0 <= max,
    ensures
        s.len() <= max ==> clip_text(s, max) == s,
        s.len() > max ==> clip_text(s, max).len() == max + 1,
        s.len() > max ==> clip_text(s, max).take(max) == s.take(max),
        s.len() > max ==> clip_text(s, max).last() == '…',
{
    reveal_strlit("…");
    if s.len() > max {
        assert(clip_text(s, max).take(max) =~= s.take(max));
    }
}

/// A number in decimal is made of digits alone, does not start with a zero unless it
/// is one, and stands for the number.
pub proof fn decimal_digits_stand_for_their_number(n: nat)
    ensures
        decimal_text(n).len() > 0,
        all_digits(decimal_text(n)),
        number_of(decimal_text(n)) == n,
        n > 0 ==> decimal_text(n)[0] != '0',
    decreases n,
{
    let d = (n % 10) as int;
    lemma_digit(d);
    let last = digit(d)[0];
    assert(digit(d) =~= seq![last]);
    if n < 10 {
        assert(seq![last].drop_last() =~= Seq::empty());
        assert(number_of(seq![last].drop_last()) == 0);
    } else {
        decimal_digits_stand_for_their_number(n / 10);
        let head = decimal_text(n / 10);
        assert(decimal_text(n) =~= head.push(last));
        assert(head.push(last).drop_last() =~= head);
        assert forall|i: int| 0 <= i < decimal_text(n).len() implies is_digit(
            #[trigger] decimal_text(n)[i],
        ) by {
            if i < head.len() {
                assert(is_digit(head[i]));
            }
        }
    }
}

/// A digit is one character, which stands for its number.
proof fn lemma_digit(d: int)
    requires
        0 <= d < 10,
    ensures
        digit(d).len() == 1,
        is_digit(digit(d)[0]),
        digit(d)[0] as nat - '0' as nat == d,
{
    reveal_strlit("0");
    reveal_strlit("1");
    reveal_strlit("2");
    reveal_strlit("3");
    reveal_strlit("4");
    reveal_strlit("5");
    reveal_strlit("6");
    reveal_strlit("7");
    reveal_strlit("8");
    reveal_strlit("9");
}

/// A number of 64 bits in decimal is read back as the number, with a plus sign before
/// it or without.
pub proof fn a_decimal_number_is_read_back(n: u64)
    ensures
        u64_of(decimal_text(n as nat)) == Some(n),
        u64_of(seq!['+'] + decimal_text(n as nat)) == Some(n),
{
    let digits = decimal_text(n as nat);
    decimal_digits_stand_for_their_number(n as nat);
    assert(is_digit(digits[0]));
    assert((seq!['+'] + digits).drop_first() =~= digits);
}

/// A text with a character that is no digit, other than a plus sign at its start, is
/// no number, and neither is an empty one.
pub proof fn a_text_with_another_character_is_no_number(s: Seq<char>, i: int)
    requires
        0 <= i < s.len(),
        !('0' <= s[i] <= '9'),
        i > 0 || s[i] != '+',
    ensures
        u64_of(s) is None,
        u64_of(Seq::empty()) is None,
{
    if s[0] == '+' {
        assert(s.drop_first()[i - 1] == s[i]);
    }
    assert(!is_digit(s[i]));
}

/// A number of more than 64 bits is not read, rather than read as another.
pub proof fn a_number_too_great_is_not_read(n: nat)
    requires
        n > u64::MAX,
    ensures
        u64_of(decimal_text(n)) is None,
{
    decimal_digits_stand_for_their_number(n);
    assert(is_digit(decimal_text(n)[0]));
}

/// The slashes that a text ends in go, all of them, and nothing else.
pub proof fn only_trailing_slashes_are_left_out(s: Seq<char>)
    ensures
        ({
            let kept = without_trailing_slashes(s);
            &&& kept.is_prefix_of(s)
            &&& kept.len() > 0 ==> kept.last() != '/'
            &&& forall|i: int| kept.len() <= i < s.len() ==> #[trigger] s[i] == '/'
        }),
    decreases s.len(),
{
    if s.len() > 0 && s.last() == '/' {
        only_trailing_slashes_are_left_out(s.drop_last());
        let kept = without_trailing_slashes(s);
        assert forall|i: int| kept.len() <= i < s.len() implies #[trigger] s[i] == '/' by {
            if i < s.len() - 1 {
                assert(s.drop_last()[i] == s[i]);
            }
        }
        assert(kept =~= s.take(kept.len() as int));
    } else {
        assert(s =~= s.take(s.len() as int));
    }
}

/// Texts are ordered as a dictionary orders them: by the first character in which they
/// differ, and a text before those that go on after it.
pub proof fn texts_are_in_dictionary_order(
    common: Seq<char>,
    x: char,
    y: char,
    s: Seq<char>,
    t: Seq<char>,
)
    ensures
        x < y ==> text_less(common + seq![x] + s, common + seq![y] + t),
        text_less(common, common + seq![x] + s),
        !text_less(common, common),
        x < y ==> !text_less(common + seq![y] + t, common + seq![x] + s),
        !text_less(common + seq![x] + s, common),
{
    let k = common.len() as int;
    let (a, b) = (common + seq![x] + s, common + seq![y] + t);
    assert(a.take(k) =~= common);
    assert(b.take(k) =~= common);
    assert(common.take(k) =~= common);
    assert(first_difference(common, a, k));
    if x < y {
        assert(first_difference(a, b, k));
    }
    if text_less(common, common) {
        let i = choose|i: int|
            first_difference(common, common, i) && (i == common.len() || common[i] < common[i]);
        assert(false);
    }
    if x < y && text_less(b, a) {
        let i = choose|i: int| first_difference(b, a, i) && (i == b.len() || b[i] < a[i]);
        if i > k {
            assert(b.take(i)[k] == a.take(i)[k]);
        } else if i < k {
            assert(b.take(k)[i] == a.take(k)[i]);
        }
    }
    if text_less(a, common) {
        let i = choose|i: int| first_difference(a, common, i) && (i == a.len() || a[i] < common[i]);
        assert(a.take(k)[i] == common[i]);
    }
}

} // verus!
