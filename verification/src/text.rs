//! Text that the node shows or reads: decimal numbers, hexadecimal byte strings, joined parts.
use crate::order::Rank;
use vstd::prelude::*;
use vstd::string::*;

verus! {

/// The decimal digit of a number below ten.
pub open spec fn digit_char(d: nat) -> char {
    (48 + d) as char
}

/// A number in decimal, without leading zeros.
pub open spec fn decimal_text(n: nat) -> Seq<char>
    decreases n,
{
    if n < 10 {
        seq![digit_char(n)]
    } else {
        decimal_text(n / 10).push(digit_char(n % 10))
    }
}

fn digit_text(d: u64) -> (r: &'static str)
    requires
        d < 10,
    ensures
        r@ == seq![digit_char(d as nat)],
{
    proof {
        reveal_strlit("0");
        reveal_strlit("1");
        reveal_strlit("2");
        reveal_strlit("3");
        reveal_strlit("4");
        reveal_strlit("5");
        reveal_strlit("6");
        reveal_strlit("7");
        reveal_strlit("8");
        reveal_strlit("9");
    }
    let r = match d {
        0 => "0",
        1 => "1",
        2 => "2",
        3 => "3",
        4 => "4",
        5 => "5",
        6 => "6",
        7 => "7",
        8 => "8",
        _ => "9",
    };
    assert(r@ =~= seq![digit_char(d as nat)]);
    r
}

/// A number in decimal.
pub fn decimal(n: u64) -> (r: String)
    ensures
        r@ == decimal_text(n as nat),
    decreases n,
{
    if n < 10 {
        String::from_str(digit_text(n))
    } else {
        let mut text = decimal(n / 10);
        text.append(digit_text(n % 10));
        assert(text@ =~= decimal_text(n as nat));
        text
    }
}

/// Two different numbers never read the same.
pub proof fn decimal_text_is_injective(a: nat, b: nat)
    requires
        decimal_text(a) == decimal_text(b),
    ensures
        a == b,
    decreases a,
{
    lemma_decimal_length(a);
    lemma_decimal_length(b);
    if a < 10 && b < 10 {
        assert(decimal_text(a)[0] == digit_char(a));
        assert(decimal_text(b)[0] == digit_char(b));
        assert(digit_char(a) as int == 48 + a && digit_char(b) as int == 48 + b);
    } else if a >= 10 && b >= 10 {
        let ta = decimal_text(a);
        let tb = decimal_text(b);
        assert(ta.last() == digit_char(a % 10) && tb.last() == digit_char(b % 10));
        assert(digit_char(a % 10) as int == 48 + a % 10);
        assert(digit_char(b % 10) as int == 48 + b % 10);
        assert(ta.drop_last() =~= decimal_text(a / 10));
        assert(tb.drop_last() =~= decimal_text(b / 10));
        decimal_text_is_injective(a / 10, b / 10);
    }
}

proof fn lemma_decimal_length(n: nat)
    ensures
        decimal_text(n).len() >= 1,
        n >= 10 ==> decimal_text(n).len() >= 2,
    decreases n,
{
    if n >= 10 {
        lemma_decimal_length(n / 10);
    }
}

/// The lower-case hexadecimal digit of a number below sixteen.
pub open spec fn hex_digit(n: int) -> char {
    if n < 10 {
        (48 + n) as char
    } else {
        (87 + n) as char
    }
}

/// Bytes in lower-case hexadecimal, two digits each, high digit first.
pub open spec fn hex_text(bytes: Seq<u8>) -> Seq<char> {
    Seq::new(
        2 * bytes.len(),
        |i: int|
            if i % 2 == 0 {
                hex_digit(bytes[i / 2] as int / 16)
            } else {
                hex_digit(bytes[i / 2] as int % 16)
            },
    )
}

/// A character is a hexadecimal digit of either case.
pub open spec fn is_hex_char(c: char) -> bool {
    ('0' <= c && c <= '9') || ('a' <= c && c <= 'f') || ('A' <= c && c <= 'F')
}

/// The value of a hexadecimal digit.
pub open spec fn hex_value(c: char) -> int {
    if '0' <= c && c <= '9' {
        c as int - 48
    } else if 'a' <= c && c <= 'f' {
        c as int - 87
    } else {
        c as int - 55
    }
}

/// A text is an even number of hexadecimal digits.
pub open spec fn is_hex(text: Seq<char>) -> bool {
    text.len() % 2 == 0 && forall|i: int| 0 <= i < text.len() ==> is_hex_char(#[trigger] text[i])
}

/// The bytes that a text of hexadecimal digits spells.
pub open spec fn hex_bytes(text: Seq<char>) -> Seq<u8> {
    Seq::new(
        text.len() / 2,
        |i: int| (16 * hex_value(text[2 * i]) + hex_value(text[2 * i + 1])) as u8,
    )
}

/// The error type of `hex::decode`.
#[verifier::external_type_specification]
#[verifier::external_body]
pub struct ExFromHexError(hex::FromHexError);

/// Calls `hex::encode`, which writes each byte as two lower-case hexadecimal digits, the high one
/// first.
#[verifier::external_body]
pub(crate) fn hex_encode(bytes: &[u8]) -> (r: String)
    ensures
        r@ == hex_text(bytes@),
{
    hex::encode(bytes)
}

/// Calls `hex::decode`, which reads pairs of hexadecimal digits of either case, the high one first,
/// and fails exactly if the text has another character or an odd length.
#[verifier::external_body]
pub(crate) fn hex_decode(text: &str) -> (r: Result<Vec<u8>, hex::FromHexError>)
    ensures
        match r {
            Ok(bytes) => is_hex(text@) && bytes@ == hex_bytes(text@),
            Err(_) => !is_hex(text@),
        },
{
    hex::decode(text)
}

/// What is written in hexadecimal reads back as the same bytes.
pub proof fn hex_round_trip(bytes: Seq<u8>)
    ensures
        is_hex(hex_text(bytes)),
        hex_bytes(hex_text(bytes)) == bytes,
{
    let text = hex_text(bytes);
    assert forall|i: int| 0 <= i < bytes.len() implies #[trigger] hex_bytes(text)[i] == bytes[i] by {
        let b = bytes[i] as int;
        assert((2 * i) % 2 == 0 && (2 * i) / 2 == i);
        assert((2 * i + 1) % 2 == 1 && (2 * i + 1) / 2 == i);
        assert(text[2 * i] == hex_digit(b / 16));
        assert(text[2 * i + 1] == hex_digit(b % 16));
    }
    assert(hex_bytes(text) =~= bytes);
}

/// Whether two texts are equal.
pub fn same_text(a: &str, b: &str) -> (r: bool)
    ensures
        r == (a@ == b@),
{
    let left = String::from_str(a);
    let right = String::from_str(b);
    left == right
}

/// A character is white space: the `White_Space` property of Unicode.
pub open spec fn is_white_space(c: char) -> bool {
    let n = c as u32;
    ||| 0x9 <= n <= 0xd
    ||| n == 0x20
    ||| n == 0x85
    ||| n == 0xa0
    ||| n == 0x1680
    ||| 0x2000 <= n <= 0x200a
    ||| n == 0x2028
    ||| n == 0x2029
    ||| n == 0x202f
    ||| n == 0x205f
    ||| n == 0x3000
}

/// `inner` is what is left of a text when the white space at both ends is taken away.
pub open spec fn is_trimmed(text: Seq<char>, inner: Seq<char>, from: int, to: int) -> bool {
    &&& 0 <= from <= to <= text.len()
    &&& inner == text.subrange(from, to)
    &&& forall|i: int| 0 <= i < from ==> is_white_space(#[trigger] text[i])
    &&& forall|i: int| to <= i < text.len() ==> is_white_space(#[trigger] text[i])
    &&& from < to ==> !is_white_space(text[from]) && !is_white_space(text[to - 1])
}

/// Taking the white space at both ends of a text away leaves `inner`.
pub open spec fn trims_to(text: Seq<char>, inner: Seq<char>) -> bool {
    exists|from: int, to: int| #[trigger] is_trimmed(text, inner, from, to)
}

/// Calls `str::trim`, which takes white space away from both ends of a text.
#[verifier::external_body]
pub(crate) fn trim_text(text: &str) -> (r: String)
    ensures
        trims_to(text@, r@),
{
    text.trim().to_string()
}

/// There is only one way to trim a text, and trimming again changes nothing.
pub proof fn trimming_is_unique(text: Seq<char>, once: Seq<char>, other: Seq<char>)
    requires
        trims_to(text, once),
        trims_to(text, other),
    ensures
        once == other,
        trims_to(once, once),
{
    let (a, b) = choose|a: int, b: int| #[trigger] is_trimmed(text, once, a, b);
    let (c, d) = choose|c: int, d: int| #[trigger] is_trimmed(text, other, c, d);
    if a < b {
        assert(!is_white_space(text[a]) && !is_white_space(text[b - 1]));
        assert(c <= a && b <= d);
        assert(!is_white_space(text[c]) && !is_white_space(text[d - 1]));
        assert(c == a && d == b);
        assert(once[0] == text[a] && once[once.len() - 1] == text[b - 1]);
    } else if c < d {
        assert(!is_white_space(text[c]));
        assert(is_white_space(text[c]));
    }
    assert(once =~= other);
    assert(is_trimmed(once, once, 0, once.len() as int)) by {
        assert(once.subrange(0, once.len() as int) =~= once);
    }
}

/// A character is a decimal digit.
pub open spec fn is_digit(c: char) -> bool {
    '0' <= c && c <= '9'
}

/// The number that a text of digits spells.
pub open spec fn digits_value(text: Seq<char>) -> nat
    decreases text.len(),
{
    if text.len() == 0 {
        0
    } else {
        digits_value(text.drop_last()) * 10 + (text.last() as nat - 48) as nat
    }
}

/// A text without a plus sign in front.
pub open spec fn unsigned_part(text: Seq<char>) -> Seq<char> {
    if text.len() > 0 && text[0] == '+' {
        text.skip(1)
    } else {
        text
    }
}

/// A text is a number that fits a `u64`: digits, possibly after a plus sign.
pub open spec fn spells_u64(text: Seq<char>) -> bool {
    let digits = unsigned_part(text);
    &&& digits.len() > 0
    &&& forall|i: int| 0 <= i < digits.len() ==> is_digit(#[trigger] digits[i])
    &&& digits_value(digits) <= u64::MAX
}

/// What `str::parse::<u64>` says of a text that is no such number.
pub uninterp spec fn u64_parse_error(text: Seq<char>) -> Seq<char>;

/// Calls `str::parse::<u64>`, which reads digits, possibly after a plus sign, and fails on any other
/// text and on a number that does not fit. The error is handed out as the text that it displays.
#[verifier::external_body]
pub(crate) fn parse_u64(text: &str) -> (r: Result<u64, String>)
    ensures
        match r {
            Ok(n) => spells_u64(text@) && n == digits_value(unsigned_part(text@)),
            Err(error) => !spells_u64(text@) && error@ == u64_parse_error(text@),
        },
{
    text.parse::<u64>().map_err(|error| error.to_string())
}

/// A number that is written out in decimal is read back as itself.
pub proof fn decimal_round_trip(n: u64)
    ensures
        spells_u64(decimal_text(n as nat)),
        digits_value(unsigned_part(decimal_text(n as nat))) == n,
{
    lemma_decimal_digits(n as nat);
    let text = decimal_text(n as nat);
    assert(is_digit(text[0]));
    assert(unsigned_part(text) == text);
}

proof fn lemma_decimal_digits(n: nat)
    ensures
        decimal_text(n).len() > 0,
        forall|i: int| 0 <= i < decimal_text(n).len() ==> is_digit(#[trigger] decimal_text(n)[i]),
        digits_value(decimal_text(n)) == n,
    decreases n,
{
    let text = decimal_text(n);
    if n < 10 {
        assert(digit_char(n) as nat == 48 + n);
        assert(text.drop_last().len() == 0);
        assert(text.last() == digit_char(n));
        reveal_with_fuel(digits_value, 2);
    } else {
        lemma_decimal_digits(n / 10);
        assert(digit_char(n % 10) as nat == 48 + n % 10);
        assert(text.drop_last() =~= decimal_text(n / 10));
        assert(text.last() == digit_char(n % 10));
        assert forall|i: int| 0 <= i < text.len() implies is_digit(#[trigger] text[i]) by {
            if i < text.len() - 1 {
                assert(text[i] == decimal_text(n / 10)[i]);
            }
        }
    }
}

/// Whether a text starts with a character.
pub fn starts_with_char(text: &str, c: char) -> (r: bool)
    ensures
        r == (text@.len() > 0 && text@[0] == c),
{
    text.unicode_len() > 0 && text.get_char(0) == c
}

/// The characters of a text.
pub fn chars_of(text: &str) -> (r: Vec<char>)
    ensures
        r@ == text@,
{
    let mut list: Vec<char> = Vec::new();
    for c in iter: text.chars()
        invariant
            list@ =~= iter.seq().take(iter.index() as int),
            iter.seq() == text@,
    {
        list.push(c);
    }
    assert(list@ =~= text@);
    list
}

/// `part` stands in a text at a position.
pub open spec fn occurs_at(text: Seq<char>, part: Seq<char>, i: int) -> bool {
    0 <= i && i + part.len() <= text.len() && text.subrange(i, i + part.len()) == part
}

/// `part` stands somewhere in a text.
pub open spec fn has_part(text: Seq<char>, part: Seq<char>) -> bool {
    exists|i: int| #[trigger] occurs_at(text, part, i)
}

fn stands_at(text: &Vec<char>, part: &Vec<char>, i: usize) -> (r: bool)
    requires
        i <= text@.len(),
    ensures
        r == occurs_at(text@, part@, i as int),
{
    if part.len() > text.len() - i {
        return false;
    }
    let mut k: usize = 0;
    while k < part.len()
        invariant
            i + part@.len() <= text@.len(),
            k <= part@.len(),
            forall|m: int| 0 <= m < k ==> text@[i + m] == part@[m],
        decreases part@.len() - k,
    {
        assert(i + k < text.len());
        if text[i + k] != part[k] {
            assert(text@.subrange(i as int, i + part@.len())[k as int] != part@[k as int]);
            return false;
        }
        k = k + 1;
    }
    assert(text@.subrange(i as int, i + part@.len()) =~= part@);
    true
}

/// The first position at which a part stands in a text.
pub fn find_part(text: &str, part: &str) -> (r: Option<usize>)
    ensures
        match r {
            Some(i) => occurs_at(text@, part@, i as int) && forall|j: int|
                0 <= j < i ==> !#[trigger] occurs_at(text@, part@, j),
            None => !has_part(text@, part@),
        },
{
    let whole = chars_of(text);
    let wanted = chars_of(part);
    let n: usize = whole.len();
    let mut i: usize = 0;
    let mut more = true;
    while more
        invariant
            whole@ == text@,
            wanted@ == part@,
            n == whole@.len(),
            i <= n,
            forall|j: int| 0 <= j < i ==> !#[trigger] occurs_at(text@, part@, j),
            !more ==> i == n && !occurs_at(text@, part@, n as int),
        decreases n - i, (if more { 1int } else { 0int }),
    {
        if stands_at(&whole, &wanted, i) {
            return Some(i);
        }
        if i < n {
            i = i + 1;
        } else {
            more = false;
        }
    }
    None
}

/// A text begins with a part.
pub open spec fn begins_with(text: Seq<char>, part: Seq<char>) -> bool {
    occurs_at(text, part, 0)
}

/// Whether a text begins with a part.
pub fn starts_with_part(text: &str, part: &str) -> (r: bool)
    ensures
        r == begins_with(text@, part@),
{
    let whole = chars_of(text);
    let wanted = chars_of(part);
    stands_at(&whole, &wanted, 0)
}

/// Texts are ordered by the first character in which they differ; a beginning comes before the whole.
pub open spec fn text_before(a: Seq<char>, b: Seq<char>) -> bool
    decreases a.len(),
{
    if b.len() == 0 {
        false
    } else if a.len() == 0 {
        true
    } else if a[0] != b[0] {
        a[0] < b[0]
    } else {
        text_before(a.skip(1), b.skip(1))
    }
}

/// No text comes before itself, of two different texts one comes first, and the order is transitive.
pub proof fn text_order_is_total(a: Seq<char>, b: Seq<char>, c: Seq<char>)
    ensures
        !text_before(a, a),
        a == b || text_before(a, b) || text_before(b, a),
        text_before(a, b) && text_before(b, c) ==> text_before(a, c),
    decreases a.len() + b.len() + c.len(),
{
    if a.len() > 0 && b.len() > 0 && c.len() > 0 {
        text_order_is_total(a.skip(1), b.skip(1), c.skip(1));
        if a[0] == b[0] && a.skip(1) == b.skip(1) {
            assert(a =~= seq![a[0]] + a.skip(1));
            assert(b =~= seq![b[0]] + b.skip(1));
        }
    } else if a.len() > 0 && b.len() > 0 {
        text_order_is_total(a.skip(1), b.skip(1), c);
        if a[0] == b[0] && a.skip(1) == b.skip(1) {
            assert(a =~= seq![a[0]] + a.skip(1));
            assert(b =~= seq![b[0]] + b.skip(1));
        }
    } else if a.len() > 0 {
        text_order_is_total(a.skip(1), b, c);
    } else if b.len() == 0 {
        assert(a =~= b);
    }
}

/// Where one text stands relative to another.
pub fn rank_texts(a: &str, b: &str) -> (r: Rank)
    ensures
        match r {
            Rank::Before => text_before(a@, b@),
            Rank::Same => a@ == b@,
            Rank::After => text_before(b@, a@),
        },
{
    let left = chars_of(a);
    let right = chars_of(b);
    let mut i: usize = 0;
    assert(a@.skip(0) =~= a@ && b@.skip(0) =~= b@);
    while i < left.len() && i < right.len()
        invariant
            left@ == a@,
            right@ == b@,
            i <= left@.len(),
            i <= right@.len(),
            text_before(a@, b@) == text_before(a@.skip(i as int), b@.skip(i as int)),
            text_before(b@, a@) == text_before(b@.skip(i as int), a@.skip(i as int)),
            forall|j: int| 0 <= j < i ==> a@[j] == b@[j],
        decreases left@.len() - i,
    {
        proof {
            assert(a@.skip(i as int).skip(1) =~= a@.skip(i + 1));
            assert(b@.skip(i as int).skip(1) =~= b@.skip(i + 1));
            assert(a@.skip(i as int)[0] == a@[i as int]);
            assert(b@.skip(i as int)[0] == b@[i as int]);
        }
        if left[i] != right[i] {
            if left[i] < right[i] {
                return Rank::Before;
            }
            return Rank::After;
        }
        i = i + 1;
    }
    if left.len() < right.len() {
        Rank::Before
    } else if left.len() > right.len() {
        Rank::After
    } else {
        assert(a@ =~= b@);
        Rank::Same
    }
}

/// The texts of a list in ascending order, each once.
pub open spec fn lists_texts(sorted: Seq<String>, texts: Seq<String>) -> bool {
    &&& forall|i: int, j: int|
        0 <= i < j < sorted.len() ==> text_before(
            (#[trigger] sorted[i])@,
            (#[trigger] sorted[j])@,
        )
    &&& forall|i: int| 0 <= i < sorted.len() ==> holds_text(texts, (#[trigger] sorted[i])@)
    &&& forall|i: int| 0 <= i < texts.len() ==> holds_text(sorted, (#[trigger] texts[i])@)
}

/// A list holds a text.
pub open spec fn holds_text(texts: Seq<String>, text: Seq<char>) -> bool {
    exists|i: int| 0 <= i < texts.len() && (#[trigger] texts[i])@ == text
}

fn insert_sorted(list: &mut Vec<String>, text: String, Ghost(source): Ghost<Seq<String>>)
    requires
        lists_texts(old(list)@, source),
    ensures
        lists_texts(final(list)@, source.push(text)),
{
    let ghost before = list@;
    let ghost more = source.push(text);
    let mut p: usize = 0;
    let mut place: usize = list.len();
    let mut found = false;
    let mut open = true;
    while open && p < list.len()
        invariant
            list@ == before,
            p <= before.len(),
            open ==> place == before.len(),
            lists_texts(before, source),
            open ==> !found,
            forall|j: int| 0 <= j < p && open ==> text_before((#[trigger] before[j])@, text@),
            !open && found ==> holds_text(before, text@),
            !open && !found ==> place < before.len() && text_before(text@, before[place as int]@)
                && forall|j: int| 0 <= j < place ==> text_before((#[trigger] before[j])@, text@),
        decreases before.len() - p, (if open { 1int } else { 0int }),
    {
        match rank_texts(list[p].as_str(), text.as_str()) {
            Rank::Before => {
                p = p + 1;
            },
            Rank::Same => {
                found = true;
                open = false;
                assert(holds_text(before, text@));
            },
            Rank::After => {
                place = p;
                open = false;
            },
        }
    }
    proof {
        assert forall|t: Seq<char>| holds_text(source, t) implies #[trigger] holds_text(
            more,
            t,
        ) by {
            let i = choose|i: int| 0 <= i < source.len() && (#[trigger] source[i])@ == t;
            assert(more[i]@ == t);
        }
        assert(more[source.len() as int]@ == text@);
        assert(holds_text(more, text@));
    }
    if found {
        proof {
            assert forall|i: int| 0 <= i < more.len() implies holds_text(
                before,
                (#[trigger] more[i])@,
            ) by {
                if i < source.len() {
                    assert(more[i] == source[i]);
                }
            }
            assert forall|i: int| 0 <= i < before.len() implies holds_text(
                more,
                (#[trigger] before[i])@,
            ) by {
                assert(holds_text(source, before[i]@));
            }
        }
        return ;
    }
    let ghost inserted = text;
    list.insert(place, text);
    proof {
        let after = list@;
        assert(after =~= before.insert(place as int, inserted));
        assert forall|i: int, j: int| 0 <= i < j < after.len() implies text_before(
            (#[trigger] after[i])@,
            (#[trigger] after[j])@,
        ) by {
            let k = place as int;
            if i < k && j < k {
                assert(after[i] == before[i] && after[j] == before[j]);
            } else if i < k && j == k {
                assert(after[i] == before[i]);
            } else if i < k {
                assert(after[i] == before[i] && after[j] == before[j - 1]);
            } else if i == k {
                assert(after[j] == before[j - 1]);
                if j - 1 > k {
                    assert(text_before(before[k]@, before[j - 1]@));
                    text_order_is_total(inserted@, before[k]@, before[j - 1]@);
                }
            } else {
                assert(after[i] == before[i - 1] && after[j] == before[j - 1]);
            }
        }
        assert forall|i: int| 0 <= i < after.len() implies holds_text(
            more,
            (#[trigger] after[i])@,
        ) by {
            if i < place {
                assert(after[i] == before[i]);
                assert(holds_text(source, before[i]@));
            } else if i > place {
                assert(after[i] == before[i - 1]);
                assert(holds_text(source, before[i - 1]@));
            }
        }
        assert forall|i: int| 0 <= i < more.len() implies holds_text(
            after,
            (#[trigger] more[i])@,
        ) by {
            if i < source.len() {
                assert(holds_text(before, source[i]@));
                let k = choose|k: int| 0 <= k < before.len() && (#[trigger] before[k])@ == source[i]@;
                if k < place {
                    assert(after[k] == before[k]);
                } else {
                    assert(after[k + 1] == before[k]);
                }
            } else {
                assert(after[place as int] == inserted);
            }
        }
    }
}

/// Sorts texts and drops repetitions.
pub fn sorted_texts(texts: Vec<String>) -> (r: Vec<String>)
    ensures
        lists_texts(r@, texts@),
{
    let mut list: Vec<String> = Vec::new();
    let mut i: usize = 0;
    assert(texts@.take(0) =~= Seq::<String>::empty());
    while i < texts.len()
        invariant
            i <= texts@.len(),
            lists_texts(list@, texts@.take(i as int)),
        decreases texts@.len() - i,
    {
        let text = texts[i].clone();
        let ghost source = texts@.take(i as int);
        assert(texts@.take(i + 1) =~= source.push(text));
        insert_sorted(&mut list, text, Ghost(source));
        i = i + 1;
    }
    assert(texts@.take(i as int) =~= texts@);
    list
}

} // verus!
