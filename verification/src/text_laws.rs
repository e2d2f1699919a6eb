//! What texts say, character by character.
use crate::command::config::comma_joined;
use crate::command::display::{abbreviated, mask_text};
use crate::network::message::{ChainParams, NetworkMessage};
use crate::rpc::lookup::{
    behind_underscore, coin_part, lines_of, lower_hex, without_comment, without_ending,
};
use crate::sync::poll::handshake_failure;
use crate::text::{
    begins_with, decimal_text, digits_value, has_part, hex_value, is_digit, is_hex_char, occurs_at,
    text_before,
};
use vstd::prelude::*;

verus! {

/// Of two texts the one with the lower character at the first difference comes first; a text comes
/// before every longer one that begins with it.
pub proof fn texts_go_by_their_first_difference(a: Seq<char>, b: Seq<char>, i: int)
    requires
        0 <= i <= a.len(),
        i <= b.len(),
        forall|j: int| 0 <= j < i ==> a[j] == b[j],
        i < a.len() && i < b.len() ==> a[i] != b[i],
    ensures
        i < a.len() && i < b.len() ==> (text_before(a, b) <==> a[i] < b[i]),
        i == a.len() ==> (text_before(a, b) <==> i < b.len()),
        i == b.len() ==> !text_before(a, b),
    decreases i,
{
    if i > 0 {
        let x = a.skip(1);
        let y = b.skip(1);
        assert(a[0] == b[0]);
        assert forall|j: int| 0 <= j < i - 1 implies x[j] == y[j] by {
            assert(a[j + 1] == b[j + 1]);
        }
        texts_go_by_their_first_difference(x, y, i - 1);
    }
}

/// One more digit makes a number ten times as large and adds its own value. A number in decimal
/// consists of digits, and begins with a zero only if it is zero.
pub proof fn digits_count_by_their_place(digits: Seq<char>, digit: char, n: nat)
    requires
        is_digit(digit),
    ensures
        digits_value(Seq::empty()) == 0,
        digits_value(digits.push(digit)) == 10 * digits_value(digits) + (digit as int - '0' as int),
        decimal_text(n).len() > 0,
        forall|i: int| 0 <= i < decimal_text(n).len() ==> is_digit(#[trigger] decimal_text(n)[i]),
        n > 0 ==> decimal_text(n)[0] != '0',
    decreases n,
{
    assert(digits.push(digit).drop_last() =~= digits);
    if n >= 10 {
        digits_count_by_their_place(digits, digit, n / 10);
        let text = decimal_text(n);
        assert(text[0] == decimal_text(n / 10)[0]);
        assert forall|i: int| 0 <= i < text.len() implies is_digit(#[trigger] text[i]) by {
            if i < text.len() - 1 {
                assert(text[i] == decimal_text(n / 10)[i]);
            }
        }
    } else {
        assert(decimal_text(n)[0] as int == 48 + n);
    }
}

/// All lines of a text, one after the other, with a line end between two of them.
pub open spec fn rejoined(lines: Seq<Seq<char>>) -> Seq<char>
    decreases lines.len(),
{
    if lines.len() == 0 {
        Seq::empty()
    } else if lines.len() == 1 {
        lines[0]
    } else {
        rejoined(lines.drop_last()).push('\n') + lines.last()
    }
}

/// The lines of a text hold no line end, and with line ends between them they are the text again.
pub proof fn lines_make_up_the_text(text: Seq<char>)
    ensures
        lines_of(text).len() >= 1,
        rejoined(lines_of(text)) == text,
        forall|i: int|
            0 <= i < lines_of(text).len() ==> !(#[trigger] lines_of(text)[i]).contains('\n'),
    decreases text.len(),
{
    let lines = lines_of(text);
    if text.len() == 0 {
        assert(rejoined(lines) =~= text);
    } else {
        let shorter = text.drop_last();
        let before = lines_of(shorter);
        let c = text.last();
        lines_make_up_the_text(shorter);
        assert(shorter.push(c) =~= text);
        if c == '\n' {
            assert(lines.drop_last() =~= before);
            assert(rejoined(lines) =~= text);
        } else {
            let line = before.last().push(c);
            let n = before.len() as int;
            assert(lines.drop_last() =~= before.drop_last());
            assert(lines.last() == line);
            if n == 1 {
                assert(rejoined(before) == before[0]);
                assert(rejoined(lines) =~= text);
            } else {
                assert(rejoined(lines) =~= rejoined(before).push(c));
            }
            assert forall|i: int| 0 <= i < lines.len() implies !(#[trigger] lines[i]).contains(
                '\n',
            ) by {
                assert(!before[i].contains('\n'));
                if i == n - 1 && line.contains('\n') {
                    let k = line.index_of('\n');
                    assert(before.last()[k] == '\n');
                }
            }
        }
    }
}

/// What is left of a line is its beginning up to the first number sign, or all of it if there is none.
pub proof fn comments_reach_to_the_end(line: Seq<char>)
    ensures
        ({
            let r = without_comment(line);
            &&& r.len() <= line.len()
            &&& forall|i: int| 0 <= i < r.len() ==> #[trigger] r[i] == line[i] && r[i] != '#'
            &&& r.len() < line.len() ==> line[r.len() as int] == '#'
        }),
    decreases line.len(),
{
    if line.len() > 0 {
        let shorter = line.drop_last();
        let before = without_comment(shorter);
        let r = without_comment(line);
        comments_reach_to_the_end(shorter);
        assert forall|i: int| 0 <= i < r.len() implies #[trigger] r[i] == line[i] && r[i]
            != '#' by {
            if i < shorter.len() {
                assert(before[i] == shorter[i]);
            }
        }
    }
}

/// The identifier of a coin stands in the name of its file behind the first underscore and before the
/// ending; a text with neither is the identifier itself.
pub proof fn coin_files_name_their_coin(label: Seq<char>, id: Seq<char>)
    requires
        !label.contains('_'),
        !id.contains('_'),
        !id.contains('.'),
    ensures
        coin_part(label + seq!['_'] + id + seq!['.', 'X', 'P', 'Q']) == id,
        coin_part(label + seq!['_'] + id) == id,
        coin_part(id + seq!['.', 'X', 'P', 'Q']) == id,
        coin_part(id) == id,
{
    let ending = seq!['.', 'X', 'P', 'Q'];
    let stem = label + seq!['_'] + id;
    lemma_behind_underscore(label, id);
    assert((stem + ending).take(stem.len() as int) =~= stem);
    assert(without_ending(stem + ending) == stem);
    assert((id + ending).take(id.len() as int) =~= id);
    assert(without_ending(id + ending) == id);
    let n = stem.len() as int;
    if n >= 4 && stem[n - 4] == '.' && stem[n - 1] == 'Q' && stem[n - 2] == 'P' && stem[n - 3]
        == 'X' {
        if id.len() >= 4 {
            assert(id[id.len() - 4] == '.');
        } else {
            assert(stem[label.len() as int] == '_');
        }
    }
    let m = id.len() as int;
    if m >= 4 && id[m - 4] == '.' {
        assert(id.contains('.'));
    }
}

proof fn lemma_behind_underscore(label: Seq<char>, id: Seq<char>)
    requires
        !label.contains('_'),
    ensures
        behind_underscore(label + seq!['_'] + id) == id,
{
    let stem = label + seq!['_'] + id;
    let k = label.len() as int;
    assert(stem[k] == '_');
    stem.index_of_first_ensures('_');
    let first = stem.index_of_first('_')->Some_0;
    if first < k {
        assert(label[first] == '_');
    }
    assert(first == k);
    assert(stem.skip(k + 1) =~= id);
}

/// A digit in lower case has the value that it had, and is none of the upper-case ones.
pub proof fn lower_case_keeps_the_value(c: char)
    requires
        is_hex_char(c),
    ensures
        is_hex_char(lower_hex(c)),
        hex_value(lower_hex(c)) == hex_value(c),
        !('A' <= lower_hex(c) && lower_hex(c) <= 'F'),
{
}

/// A long text is shown by its first eight and its last eight characters, a short one as it is.
pub proof fn short_forms_show_both_ends(text: Seq<char>)
    ensures
        text.len() <= 16 ==> abbreviated(text) == text,
        text.len() > 16 ==> {
            let short = abbreviated(text);
            &&& short.len() == 18
            &&& forall|i: int| 0 <= i < 8 ==> #[trigger] short[i] == text[i]
            &&& short[8] == '.' && short[9] == '.'
            &&& forall|i: int| 10 <= i < 18 ==> #[trigger] short[i] == text[text.len() - 18 + i]
        },
{
    reveal_strlit("..");
}

/// The value of two hexadecimal digits.
pub open spec fn byte_value(text: Seq<char>) -> int {
    16 * hex_value(text[0]) + hex_value(text[1])
}

/// A mask with one bit is the highest bit, and each further bit is the next one below.
pub proof fn masks_fill_up_from_the_highest_bit(bits: int)
    requires
        1 <= bits <= 7,
    ensures
        mask_text(bits).len() == 2,
        byte_value(mask_text(1)) == 128,
        bits < 7 ==> byte_value(mask_text(bits + 1)) == 128 + byte_value(mask_text(bits)) / 2,
{
    reveal_strlit("80");
    reveal_strlit("c0");
    reveal_strlit("e0");
    reveal_strlit("f0");
    reveal_strlit("f8");
    reveal_strlit("fc");
    reveal_strlit("fe");
}

/// Joined texts stand in their order with one comma between two of them.
pub proof fn commas_stand_between_texts(texts: Seq<String>, text: String)
    ensures
        comma_joined(Seq::empty()).len() == 0,
        texts.len() == 0 ==> comma_joined(texts.push(text)) == text@,
        texts.len() > 0 ==> comma_joined(texts.push(text)) == comma_joined(texts) + seq![','] + text@,
{
    reveal_strlit(",");
    assert(texts.push(text).drop_last() =~= texts);
    assert(","@ =~= seq![',']);
}

/// A greeting succeeds exactly if it is answered with a version of the same chain.
pub proof fn greetings_succeed_on_the_same_chain(reply: NetworkMessage, params: ChainParams)
    ensures
        handshake_failure(reply, params) is None <==> {
            &&& reply is VerAck
            &&& reply->VerAck_0.protocol_version == params.protocol_version
            &&& reply->VerAck_0.chain_id == params.chain_id
            &&& reply->VerAck_0.chain_name@ == params.chain_name@
            &&& reply->VerAck_0.protocol_stage@ == params.protocol_stage@
            &&& reply->VerAck_0.pow_algorithm@ == params.pow_algorithm@
            &&& reply->VerAck_0.difficulty_algorithm@ == params.difficulty_algorithm@
            &&& reply->VerAck_0.network_magic@ == params.network_magic@
        },
{
}

/// A part stands in a text exactly if all its characters do, one after the other; wherever it is put
/// into a text it is there.
pub proof fn parts_stand_where_their_characters_do(
    text: Seq<char>,
    part: Seq<char>,
    i: int,
    before: Seq<char>,
    behind: Seq<char>,
)
    ensures
        occurs_at(text, part, i) <==> 0 <= i && i + part.len() <= text.len() && forall|j: int|
            0 <= j < part.len() ==> text[i + j] == #[trigger] part[j],
        has_part(before + part + behind, part),
        begins_with(part + behind, part),
{
    if 0 <= i && i + part.len() <= text.len() {
        let window = text.subrange(i, i + part.len());
        if forall|j: int| 0 <= j < part.len() ==> text[i + j] == #[trigger] part[j] {
            assert(window =~= part);
        }
        if window == part {
            assert forall|j: int| 0 <= j < part.len() implies text[i + j] == #[trigger] part[j] by {
                assert(window[j] == part[j]);
            }
        }
    }
    let whole = before + part + behind;
    let at = before.len() as int;
    assert(whole.subrange(at, at + part.len()) =~= part);
    assert(occurs_at(whole, part, at));
    assert((part + behind).subrange(0, part.len() as int) =~= part);
}

} // verus!
