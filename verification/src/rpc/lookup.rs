//! Reading what a request names: addresses, hashes, coin files and lists of peers.
use crate::ids::Address;
use crate::text::{
    chars_of, hex_bytes, hex_decode, is_hex, is_hex_char, starts_with_char, trim_text, trims_to,
};
use vstd::prelude::*;
use vstd::string::*;

verus! {

fn to_hash(bytes: &Vec<u8>) -> (r: [u8; 32])
    requires
        bytes@.len() == 32,
    ensures
        r@ == bytes@,
{
    let r: [u8; 32] = [
        bytes[0], bytes[1], bytes[2], bytes[3], bytes[4], bytes[5], bytes[6], bytes[7],
        bytes[8], bytes[9], bytes[10], bytes[11], bytes[12], bytes[13], bytes[14], bytes[15],
        bytes[16], bytes[17], bytes[18], bytes[19], bytes[20], bytes[21], bytes[22], bytes[23],
        bytes[24], bytes[25], bytes[26], bytes[27], bytes[28], bytes[29], bytes[30], bytes[31],
    ];
    assert(r@ =~= bytes@);
    r
}

fn to_address(bytes: &Vec<u8>) -> (r: [u8; 20])
    requires
        bytes@.len() == 20,
    ensures
        r@ == bytes@,
{
    let r: [u8; 20] = [
        bytes[0], bytes[1], bytes[2], bytes[3], bytes[4], bytes[5], bytes[6], bytes[7],
        bytes[8], bytes[9], bytes[10], bytes[11], bytes[12], bytes[13], bytes[14], bytes[15],
        bytes[16], bytes[17], bytes[18], bytes[19],
    ];
    assert(r@ =~= bytes@);
    r
}

/// Why a hash or an address is refused.
#[derive(Clone, Copy, Debug, PartialEq, Eq, Structural)]
pub enum LookupError {
    /// The text is not hexadecimal.
    NotHex,
    /// The text spells too few or too many bytes.
    WrongLength,
}

/// Reads a hash in hexadecimal.
pub fn parse_hash_hex(text: &str) -> (r: Result<[u8; 32], LookupError>)
    ensures
        match r {
            Ok(hash) => is_hex(text@) && hash@ == hex_bytes(text@),
            Err(error) => error == (if !is_hex(text@) {
                LookupError::NotHex
            } else {
                LookupError::WrongLength
            }) && (!is_hex(text@) || hex_bytes(text@).len() != 32),
        },
{
    match hex_decode(text) {
        Err(_) => Err(LookupError::NotHex),
        Ok(bytes) => if bytes.len() == 32 {
            Ok(to_hash(&bytes))
        } else {
            Err(LookupError::WrongLength)
        },
    }
}

/// Reads an address. `decoded` is what the text means in the form that wallets use, if it has that
/// form; any other text must be the bytes of the address in hexadecimal.
pub fn parse_address_string(text: &str, decoded: Option<Address>) -> (r: Result<
    Address,
    LookupError,
>)
    ensures
        match decoded {
            Some(address) => r == Ok::<Address, LookupError>(address),
            None => match r {
                Ok(address) => is_hex(text@) && address.0@ == hex_bytes(text@),
                Err(error) => error == (if !is_hex(text@) {
                    LookupError::NotHex
                } else {
                    LookupError::WrongLength
                }) && (!is_hex(text@) || hex_bytes(text@).len() != 20),
            },
        },
{
    match decoded {
        Some(address) => {
            return Ok(address);
        },
        None => {},
    }
    match hex_decode(text) {
        Err(_) => Err(LookupError::NotHex),
        Ok(bytes) => if bytes.len() == 20 {
            Ok(Address(to_address(&bytes)))
        } else {
            Err(LookupError::WrongLength)
        },
    }
}

/// A hexadecimal digit in lower case.
pub open spec fn lower_hex(c: char) -> char {
    if 'A' <= c && c <= 'F' {
        (c as int + 32) as char
    } else {
        c
    }
}

/// A text without the ending of coin files.
pub open spec fn without_ending(name: Seq<char>) -> Seq<char> {
    let n = name.len();
    if n >= 4 && name[n - 4] == '.' && name[n - 3] == 'X' && name[n - 2] == 'P' && name[n - 1]
        == 'Q' {
        name.take(n - 4)
    } else {
        name
    }
}

/// A text behind its first underscore; the whole text if there is none.
pub open spec fn behind_underscore(name: Seq<char>) -> Seq<char> {
    if name.contains('_') {
        name.skip(name.index_of_first('_')->Some_0 + 1)
    } else {
        name
    }
}

/// The identifying part of a coin file's name.
pub open spec fn coin_part(name: Seq<char>) -> Seq<char> {
    behind_underscore(without_ending(name))
}

/// Why the name of a coin file is refused.
#[derive(Clone, Copy, Debug, PartialEq, Eq, Structural)]
pub enum CoinNameError {
    /// It does not hold hexadecimal digits where the coin is named.
    NotHex,
}

fn lowered(c: char) -> (r: &'static str)
    requires
        is_hex_char(c),
    ensures
        r@ == seq![lower_hex(c)],
{
    proof {
        reveal_strlit("0");
        reveal_strlit("1");
        reveal_strlit("2");
        reveal_strlit("3");
        reveal_strlit("4");
        reveal_strlit("5");
        reveal_strlit("6");
        reveal_strlit("7");
        reveal_strlit("8");
        reveal_strlit("9");
        reveal_strlit("a");
        reveal_strlit("b");
        reveal_strlit("c");
        reveal_strlit("d");
        reveal_strlit("e");
        reveal_strlit("f");
    }
    let r = match c {
        '0' => "0",
        '1' => "1",
        '2' => "2",
        '3' => "3",
        '4' => "4",
        '5' => "5",
        '6' => "6",
        '7' => "7",
        '8' => "8",
        '9' => "9",
        'a' => "a",
        'A' => "a",
        'b' => "b",
        'B' => "b",
        'c' => "c",
        'C' => "c",
        'd' => "d",
        'D' => "d",
        'e' => "e",
        'E' => "e",
        _ => "f",
    };
    assert(r@ =~= seq![lower_hex(c)]);
    r
}

/// The beginning of a coin's identifier, from the name of its file or from the identifier itself.
pub fn qcash_file_lookup_prefix(name: &str) -> (r: Result<String, CoinNameError>)
    ensures
        ({
            let part = coin_part(name@);
            let fine = part.len() > 0 && forall|i: int|
                0 <= i < part.len() ==> is_hex_char(#[trigger] part[i]);
            match r {
                Ok(prefix) => fine && prefix@ == Seq::new(part.len(), |i: int| lower_hex(part[i])),
                Err(_) => !fine,
            }
        }),
{
    let chars = chars_of(name);
    let n: usize = chars.len();
    let end: usize = if n >= 4 && chars[n - 4] == '.' && chars[n - 3] == 'X' && chars[n - 2] == 'P'
        && chars[n - 1] == 'Q' {
        n - 4
    } else {
        n
    };
    let ghost stem = without_ending(name@);
    assert(stem =~= name@.take(end as int));
    let mut start: usize = 0;
    let mut i: usize = 0;
    let mut found = false;
    while i < end && !found
        invariant
            chars@ == name@,
            end <= chars@.len(),
            stem == name@.take(end as int),
            i <= end,
            !found ==> start == 0 && forall|j: int| 0 <= j < i ==> stem[j] != '_',
            found ==> start == i && i > 0 && stem[i - 1] == '_' && forall|j: int|
                0 <= j < i - 1 ==> stem[j] != '_',
        decreases end - i,
    {
        if chars[i] == '_' {
            found = true;
            start = i + 1;
        }
        i = i + 1;
    }
    let ghost part = coin_part(name@);
    proof {
        if found {
            assert(stem[start - 1] == '_');
            assert(stem.contains('_'));
            stem.index_of_first_ensures('_');
            let k = stem.index_of_first('_')->Some_0;
            assert(k == start - 1);
        } else {
            assert(!stem.contains('_'));
        }
        assert(part =~= name@.subrange(start as int, end as int));
    }
    if start >= end {
        return Err(CoinNameError::NotHex);
    }
    let mut prefix = String::new();
    let mut k: usize = start;
    assert(prefix@ =~= Seq::new(0, |m: int| lower_hex(part[m])));
    while k < end
        invariant
            chars@ == name@,
            start <= k <= end <= chars@.len(),
            part == name@.subrange(start as int, end as int),
            part == coin_part(name@),
            prefix@ == Seq::new((k - start) as nat, |m: int| lower_hex(part[m])),
            forall|m: int| 0 <= m < k - start ==> is_hex_char(#[trigger] part[m]),
        decreases end - k,
    {
        let c = chars[k];
        assert(part[k - start] == c);
        let digit = ('0' <= c && c <= '9') || ('a' <= c && c <= 'f') || ('A' <= c && c <= 'F');
        if !digit {
            return Err(CoinNameError::NotHex);
        }
        prefix.append(lowered(c));
        k = k + 1;
        assert(prefix@ =~= Seq::new((k - start) as nat, |m: int| lower_hex(part[m])));
    }
    Ok(prefix)
}

/// A list of peers is a structured cache, not one address per line.
pub fn is_peer_cache(contents: &str) -> (r: bool)
    ensures
        exists|inner: Seq<char>| #[trigger]
            trims_to(contents@, inner) && r == (inner.len() > 0 && inner[0] == '{'),
{
    let inner = trim_text(contents);
    starts_with_char(inner.as_str(), '{')
}

/// A line of a list of peers.
#[derive(Clone, Debug, PartialEq, Eq)]
pub struct PeerLine {
    pub number: usize,
    pub text: String,
}

/// The lines of a text.
pub open spec fn lines_of(text: Seq<char>) -> Seq<Seq<char>>
    decreases text.len(),
{
    if text.len() == 0 {
        seq![Seq::empty()]
    } else {
        let before = lines_of(text.drop_last());
        if text.last() == '\n' {
            before.push(Seq::empty())
        } else {
            before.update(before.len() - 1, before.last().push(text.last()))
        }
    }
}

/// A line up to its comment.
pub open spec fn without_comment(line: Seq<char>) -> Seq<char>
    decreases line.len(),
{
    if line.len() == 0 {
        line
    } else {
        let before = without_comment(line.drop_last());
        if before.len() < line.len() - 1 || line.last() == '#' {
            before
        } else {
            line
        }
    }
}

/// A line says nothing but white space and comments.
pub open spec fn is_blank(line: Seq<char>) -> bool {
    trims_to(without_comment(line), Seq::empty())
}

/// The entries of a list of peers: every line that says something, without its comment.
pub open spec fn lists_peers(entries: Seq<PeerLine>, lines: Seq<Seq<char>>) -> bool {
    &&& forall|i: int, j: int|
        0 <= i < j < entries.len() ==> (#[trigger] entries[i]).number < (
        #[trigger] entries[j]).number
    &&& forall|i: int|
        0 <= i < entries.len() ==> {
            let entry = #[trigger] entries[i];
            &&& 1 <= entry.number <= lines.len()
            &&& trims_to(without_comment(lines[entry.number - 1]), entry.text@)
            &&& entry.text@.len() > 0
        }
    &&& forall|k: int|
        0 <= k < lines.len() && !is_blank(#[trigger] lines[k]) ==> exists|i: int|
            0 <= i < entries.len() && (#[trigger] entries[i]).number == k + 1
}

proof fn lemma_lines_nonempty(text: Seq<char>)
    ensures
        lines_of(text).len() >= 1,
        lines_of(text).len() <= text.len() + 1,
    decreases text.len(),
{
    if text.len() > 0 {
        lemma_lines_nonempty(text.drop_last());
    }
}

proof fn lemma_no_comment(line: Seq<char>)
    requires
        forall|i: int| 0 <= i < line.len() ==> line[i] != '#',
    ensures
        without_comment(line) == line,
    decreases line.len(),
{
    if line.len() > 0 {
        lemma_no_comment(line.drop_last());
    }
}

proof fn lemma_comment_at(line: Seq<char>, k: int)
    requires
        0 <= k < line.len(),
        line[k] == '#',
        forall|i: int| 0 <= i < k ==> line[i] != '#',
    ensures
        without_comment(line) == line.take(k),
    decreases line.len(),
{
    let shorter = line.drop_last();
    if k == line.len() - 1 {
        lemma_no_comment(shorter);
        assert(line.take(k) =~= shorter);
    } else {
        lemma_comment_at(shorter, k);
        assert(shorter.take(k) =~= line.take(k));
    }
}

fn entry_of(text: &str, chars: &Vec<char>, from: usize, to: usize, number: usize) -> (r: Option<
    PeerLine,
>)
    requires
        chars@ == text@,
        from <= to <= text@.len(),
    ensures
        ({
            let line = text@.subrange(from as int, to as int);
            match r {
                Some(entry) => entry.number == number && trims_to(
                    without_comment(line),
                    entry.text@,
                ) && entry.text@.len() > 0,
                None => is_blank(line),
            }
        }),
{
    let ghost line = text@.subrange(from as int, to as int);
    let mut end: usize = from;
    while end < to && chars[end] != '#'
        invariant
            chars@ == text@,
            from <= end <= to <= text@.len(),
            line == text@.subrange(from as int, to as int),
            forall|i: int| 0 <= i < end - from ==> line[i] != '#',
        decreases to - end,
    {
        assert(line[end - from] == chars@[end as int]);
        end = end + 1;
    }
    proof {
        if end < to {
            assert(line[end - from] == '#');
            lemma_comment_at(line, end - from);
            assert(line.take(end - from) =~= text@.subrange(from as int, end as int));
        } else {
            lemma_no_comment(line);
            assert(line =~= text@.subrange(from as int, end as int));
        }
    }
    let trimmed = trim_text(text.substring_char(from, end));
    if trimmed.as_str().unicode_len() == 0 {
        assert(trimmed@ =~= Seq::<char>::empty());
        None
    } else {
        Some(PeerLine { number, text: trimmed })
    }
}

/// The entries of a list with one address per line; `#` starts a comment.
pub fn peer_lines(contents: &str) -> (entries: Vec<PeerLine>)
    requires
        contents@.len() < usize::MAX,
    ensures
        lists_peers(entries@, lines_of(contents@)),
{
    let chars = chars_of(contents);
    let n: usize = chars.len();
    let mut entries: Vec<PeerLine> = Vec::new();
    let mut number: usize = 1;
    let mut from: usize = 0;
    let mut i: usize = 0;
    assert(contents@.take(0) =~= Seq::<char>::empty());
    while i < n
        invariant
            chars@ == contents@,
            n == contents@.len(),
            n < usize::MAX,
            from <= i <= n,
            number <= i + 1,
            lines_of(contents@.take(i as int)).len() == number,
            lines_of(contents@.take(i as int)).last() == contents@.subrange(from as int, i as int),
            lists_peers(entries@, lines_of(contents@.take(i as int)).drop_last()),
        decreases n - i,
    {
        let ghost lines = lines_of(contents@.take(i as int));
        let ghost more = lines_of(contents@.take(i + 1));
        proof {
            lemma_lines_nonempty(contents@.take(i as int));
            assert(contents@.take(i + 1).drop_last() =~= contents@.take(i as int));
            assert(contents@.take(i + 1).last() == contents@[i as int]);
        }
        if chars[i] == '\n' {
            let ghost before = entries@;
            let entry = entry_of(contents, &chars, from, i, number);
            let ghost kept = entry;
            match entry {
                Some(entry) => {
                    entries.push(entry);
                },
                None => {},
            }
            proof {
                assert(more == lines.push(Seq::empty()));
                assert(more.drop_last() =~= lines);
                assert(lines.drop_last().push(lines.last()) =~= lines);
                lemma_one_line_more(before, lines, number, kept, entries@);
                assert(more.last() =~= contents@.subrange(i + 1, i + 1));
            }
            number = number + 1;
            from = i + 1;
        } else {
            proof {
                assert(more.drop_last() =~= lines.drop_last());
                assert(more.last() =~= contents@.subrange(from as int, i + 1));
            }
        }
        i = i + 1;
    }
    let ghost lines = lines_of(contents@);
    assert(contents@.take(i as int) =~= contents@);
    let ghost before = entries@;
    let entry = entry_of(contents, &chars, from, n, number);
    let ghost kept = entry;
    match entry {
        Some(entry) => {
            entries.push(entry);
        },
        None => {},
    }
    proof {
        lemma_lines_nonempty(contents@);
        lemma_one_line_more(before, lines, number, kept, entries@);
    }
    entries
}

proof fn lemma_one_line_more(
    before: Seq<PeerLine>,
    lines: Seq<Seq<char>>,
    number: usize,
    entry: Option<PeerLine>,
    after: Seq<PeerLine>,
)
    requires
        lines.len() == number,
        lines.len() > 0,
        lists_peers(before, lines.drop_last()),
        match entry {
            Some(e) => e.number == number && trims_to(without_comment(lines.last()), e.text@)
                && e.text@.len() > 0 && after == before.push(e),
            None => is_blank(lines.last()) && after == before,
        },
    ensures
        lists_peers(after, lines),
{
    let shorter = lines.drop_last();
    assert forall|i: int| 0 <= i < after.len() implies {
        let e = #[trigger] after[i];
        &&& 1 <= e.number <= lines.len()
        &&& trims_to(without_comment(lines[e.number - 1]), e.text@)
        &&& e.text@.len() > 0
    } by {
        if i < before.len() {
            assert(after[i] == before[i]);
            assert(lines[before[i].number - 1] == shorter[before[i].number - 1]);
        }
    }
    assert forall|i: int, j: int| 0 <= i < j < after.len() implies (#[trigger] after[i]).number < (
    #[trigger] after[j]).number by {
        assert(after[i] == before[i]);
        assert(before[i].number <= shorter.len());
        if j < before.len() {
            assert(after[j] == before[j]);
        }
    }
    assert forall|k: int| 0 <= k < lines.len() && !is_blank(#[trigger] lines[k]) implies exists|
        i: int,
    | 0 <= i < after.len() && (#[trigger] after[i]).number == k + 1 by {
        if k < shorter.len() {
            assert(shorter[k] == lines[k]);
            let i = choose|i: int| 0 <= i < before.len() && (#[trigger] before[i]).number == k + 1;
            assert(after[i] == before[i]);
        } else {
            assert(lines[k] == lines.last());
            assert(after[before.len() as int].number == k + 1);
        }
    }
}

} // verus!
