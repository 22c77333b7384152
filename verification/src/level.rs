//! The map loader: parses the textual grid format — a rectangular block of
//! tile glyphs, optionally followed by a delimited table of `index::text`
//! hint pairs — into a `GameMap`, and supplies the per-level rewind
//! budgets.

use vstd::prelude::*;

use crate::grid::{BottomTileType, GameMap, Tile, TopTileType, doors_clean};
use crate::snake::RewindCounter;

verus! {

/// Why a map text failed to load. Malformed input is a load failure
/// surfaced to the caller, never a panic.
#[derive(Debug, Clone, Copy, PartialEq, Eq, Structural)]
pub enum MapError {
    /// The board block holds no cell at all.
    EmptyMap,
    /// The board block's rows are not all of one length.
    InconsistentRows,
}

/// The literal line of text that separates the board block from the hint
/// table.
pub open spec fn delimiter() -> Seq<char> {
    seq!['S', 'P', 'L', 'I', 'T', '_', 'H', 'E', 'R', 'E']
}

/// Whether the delimiter occurs in `s` at offset `i`.
pub open spec fn delimiter_at(s: Seq<char>, i: int) -> bool {
    i + 10 <= s.len() && s.subrange(i, i + 10) == delimiter()
}

/// The offset of the first delimiter occurrence at or after `from`, if any.
pub open spec fn find_delimiter(s: Seq<char>, from: nat) -> Option<int>
    decreases s.len() - from,
{
    if from + 10 > s.len() {
        Option::None
    } else if delimiter_at(s, from as int) {
        Option::Some(from as int)
    } else {
        find_delimiter(s, from + 1)
    }
}

/// The board part of the map text: everything before the first delimiter,
/// or the whole text if there is none.
pub open spec fn board_part(s: Seq<char>) -> Seq<char> {
    match find_delimiter(s, 0) {
        Option::Some(i) => s.take(i),
        Option::None => s,
    }
}

/// The hint part of the map text: everything after the first delimiter, or
/// nothing if there is none.
pub open spec fn hint_part(s: Seq<char>) -> Seq<char> {
    match find_delimiter(s, 0) {
        Option::Some(i) => s.skip(i + 10),
        Option::None => Seq::empty(),
    }
}

/// The whitespace characters stripped from the ends of each block.
pub open spec fn is_space(c: char) -> bool {
    c == ' ' || c == '\t' || c == '\n' || c == '\r'
}

/// `s` without its leading whitespace.
pub open spec fn trim_start(s: Seq<char>) -> Seq<char>
    decreases s.len(),
{
    if s.len() > 0 && is_space(s[0]) {
        trim_start(s.drop_first())
    } else {
        s
    }
}

/// `s` without its trailing whitespace.
pub open spec fn trim_end(s: Seq<char>) -> Seq<char>
    decreases s.len(),
{
    if s.len() > 0 && is_space(s.last()) {
        trim_end(s.drop_last())
    } else {
        s
    }
}

/// `s` without leading and trailing whitespace.
pub open spec fn spec_trim(s: Seq<char>) -> Seq<char> {
    trim_end(trim_start(s))
}

/// The offset of the first line feed at or after `from`, if any.
pub open spec fn find_newline(s: Seq<char>, from: nat) -> Option<int>
    decreases s.len() - from,
{
    if from >= s.len() {
        Option::None
    } else if s[from as int] == '\n' {
        Option::Some(from as int)
    } else {
        find_newline(s, from + 1)
    }
}

/// A line with a carriage return left before the line feed loses it.
pub open spec fn strip_cr(line: Seq<char>) -> Seq<char> {
    if line.len() > 0 && line.last() == '\r' {
        line.drop_last()
    } else {
        line
    }
}

/// A found line feed lies between the scan start and the end of the text.
pub proof fn lemma_find_newline_bound(s: Seq<char>, from: nat)
    ensures
        match find_newline(s, from) {
            Option::Some(i) => from <= i < s.len(),
            Option::None => true,
        },
    decreases s.len() - from,
{
    if from < s.len() && s[from as int] != '\n' {
        lemma_find_newline_bound(s, from + 1);
    }
}

/// The lines of `s` from offset `p` on: split at line feeds, with a
/// carriage return before each line feed stripped. Text ending without a
/// line feed still ends its last line; a final line feed closes the last
/// line rather than opening an empty one.
pub open spec fn split_lines_from(s: Seq<char>, p: nat) -> Seq<Seq<char>>
    decreases s.len() - p,
    via split_lines_from_decreases
{
    if p >= s.len() {
        Seq::empty()
    } else {
        match find_newline(s, p) {
            Option::None => seq![s.subrange(p as int, s.len() as int)],
            Option::Some(i) => seq![strip_cr(s.subrange(p as int, i))] + split_lines_from(
                s,
                (i + 1) as nat,
            ),
        }
    }
}

#[via_fn]
proof fn split_lines_from_decreases(s: Seq<char>, p: nat) {
    lemma_find_newline_bound(s, p);
}

/// `s` split into lines.
pub open spec fn split_lines(s: Seq<char>) -> Seq<Seq<char>> {
    split_lines_from(s, 0)
}

/// Scanning up to the first line feed determines `find_newline`.
proof fn lemma_find_newline_from(s: Seq<char>, from: nat, stop: nat)
    requires
        from <= stop <= s.len(),
        forall|m: int| from <= m < stop ==> s[m] != '\n',
        stop == s.len() || s[stop as int] == '\n',
    ensures
        find_newline(s, from) == (if stop < s.len() {
            Option::Some(stop as int)
        } else {
            Option::None::<int>
        }),
    decreases stop - from,
{
    if from < stop {
        lemma_find_newline_from(s, from + 1, stop);
    }
}

/// Whether `c` is a decimal digit glyph.
pub open spec fn is_digit(c: char) -> bool {
    c == '0' || c == '1' || c == '2' || c == '3' || c == '4' || c == '5' || c == '6' || c == '7'
        || c == '8' || c == '9'
}

/// The value of a digit glyph; 0 for any other character.
pub open spec fn spec_digit(c: char) -> nat {
    match c {
        '0' => 0,
        '1' => 1,
        '2' => 2,
        '3' => 3,
        '4' => 4,
        '5' => 5,
        '6' => 6,
        '7' => 7,
        '8' => 8,
        '9' => 9,
        _ => 0,
    }
}

/// The number a digit string denotes, most significant digit first.
pub open spec fn spec_digits_value(s: Seq<char>) -> nat
    decreases s.len(),
{
    if s.len() == 0 {
        0
    } else {
        spec_digits_value(s.drop_last()) * 10 + spec_digit(s.last())
    }
}

/// The offset of the first `::` at or after `from`, if any.
pub open spec fn find_colons(s: Seq<char>, from: nat) -> Option<int>
    decreases s.len() - from,
{
    if from + 2 > s.len() {
        Option::None
    } else if s[from as int] == ':' && s[from as int + 1] == ':' {
        Option::Some(from as int)
    } else {
        find_colons(s, from + 1)
    }
}

/// The key/text pair a hint line carries: digits, `::`, then the hint
/// text. A line without `::`, or whose key is empty or not all digits,
/// carries none and is skipped.
pub open spec fn hint_entry(line: Seq<char>) -> Option<(nat, Seq<char>)> {
    match find_colons(line, 0) {
        Option::None => Option::None,
        Option::Some(i) => {
            let key = line.take(i);
            if key.len() > 0 && (forall|m: int| 0 <= m < key.len() ==> is_digit(#[trigger] key[m])) {
                Option::Some((spec_digits_value(key), line.skip(i + 2)))
            } else {
                Option::None
            }
        },
    }
}

/// The hint table built from the hint block's lines: 15 slots, filled by
/// each line's entry in order, later lines overwriting earlier ones; a key
/// outside the table is ignored.
pub open spec fn hint_table_of(lines: Seq<Seq<char>>) -> Seq<Option<Seq<char>>>
    decreases lines.len(),
{
    if lines.len() == 0 {
        Seq::new(15, |i: int| Option::None)
    } else {
        let t = hint_table_of(lines.drop_last());
        match hint_entry(lines.last()) {
            Option::Some(entry) => if entry.0 < 15 {
                t.update(entry.0 as int, Option::Some(entry.1))
            } else {
                t
            },
            Option::None => t,
        }
    }
}

/// The hint table of a whole map text.
pub open spec fn spec_hint_table(text: Seq<char>) -> Seq<Option<Seq<char>>> {
    hint_table_of(split_lines(spec_trim(hint_part(text))))
}

/// The channel a lowercase plate glyph activates: its uppercase letter.
pub open spec fn plate_channel(c: char) -> char {
    match c {
        'z' => 'Z',
        'x' => 'X',
        'c' => 'C',
        'v' => 'V',
        'b' => 'B',
        'n' => 'N',
        'm' => 'M',
        _ => c,
    }
}

/// The channel an anti-door glyph belongs to, mapped positionally onto the
/// door letters.
pub open spec fn anti_door_channel(c: char) -> char {
    match c {
        'A' => 'Z',
        'S' => 'X',
        'D' => 'C',
        'F' => 'V',
        'G' => 'B',
        'H' => 'N',
        'J' => 'M',
        _ => c,
    }
}

/// The hint text a glyph refers to: digit glyphs look their value up in
/// the table, everything else refers to none.
pub open spec fn hint_text(c: char, table: Seq<Option<Seq<char>>>) -> Option<Seq<char>> {
    if is_digit(c) && spec_digit(c) < table.len() {
        table[spec_digit(c) as int]
    } else {
        Option::None
    }
}

/// The tile a glyph denotes when it carries no hint text: walls, the snake
/// start, spikes, the exit, plates, doors and anti-doors by their letters;
/// anything else — a digit with a missing hint entry included — is an
/// empty tile.
pub open spec fn spec_tile_plain(c: char) -> Tile {
    if c == 'z' || c == 'x' || c == 'c' || c == 'v' || c == 'b' || c == 'n' || c == 'm' {
        Tile { top: TopTileType::Nothing, bottom: BottomTileType::PressurePlate(plate_channel(c)) }
    } else if c == 'Z' || c == 'X' || c == 'C' || c == 'V' || c == 'B' || c == 'N' || c == 'M' {
        Tile { top: TopTileType::Door(c), bottom: BottomTileType::Nothing }
    } else if c == 'A' || c == 'S' || c == 'D' || c == 'F' || c == 'G' || c == 'H' || c == 'J' {
        Tile { top: TopTileType::Nothing, bottom: BottomTileType::AntiDoor(anti_door_channel(c)) }
    } else if c == '#' {
        Tile { top: TopTileType::Wall, bottom: BottomTileType::Nothing }
    } else if c == '%' {
        Tile { top: TopTileType::Snake, bottom: BottomTileType::Nothing }
    } else if c == '$' {
        Tile { top: TopTileType::Nothing, bottom: BottomTileType::Spike }
    } else if c == '|' {
        Tile { top: TopTileType::Nothing, bottom: BottomTileType::Exit }
    } else {
        Tile { top: TopTileType::Nothing, bottom: BottomTileType::Nothing }
    }
}

/// What the tile built for glyph `c` must be: a digit glyph with a hint
/// entry becomes a wall carrying that hint text; any other glyph becomes
/// exactly its plain tile.
pub open spec fn tile_matches(t: Tile, c: char, table: Seq<Option<Seq<char>>>) -> bool {
    match hint_text(c, table) {
        Option::Some(text) => t.top == TopTileType::Wall && (t.bottom matches
            BottomTileType::TextHint(h) && h@ == text),
        Option::None => t == spec_tile_plain(c),
    }
}

/// Whether `c` is an ASCII space character.
fn is_space_char(c: char) -> (r: bool)
    ensures
        r == is_space(c),
{
    c == ' ' || c == '\t' || c == '\n' || c == '\r'
}

/// The trimmed copy of a block of characters.
fn trim_chars(s: &Vec<char>) -> (r: Vec<char>)
    ensures
        r@ == spec_trim(s@),
{
    let mut a: usize = 0;
    proof {
        assert(s@.skip(0) =~= s@);
    }
    while a < s.len() && is_space_char(s[a])
        invariant
            a <= s@.len(),
            trim_start(s@) == trim_start(s@.skip(a as int)),
        decreases s@.len() - a,
    {
        proof {
            assert(s@.skip(a as int).drop_first() =~= s@.skip(a + 1));
        }
        a += 1;
    }
    proof {
        assert(trim_start(s@) =~= s@.skip(a as int));
    }
    let mut b: usize = s.len();
    proof {
        assert(s@.skip(a as int) =~= s@.subrange(a as int, s@.len() as int));
    }
    while b > a && is_space_char(s[b - 1])
        invariant
            a <= b <= s@.len(),
            trim_start(s@) == s@.skip(a as int),
            trim_end(s@.skip(a as int)) == trim_end(s@.subrange(a as int, b as int)),
        decreases b,
    {
        proof {
            assert(s@.subrange(a as int, b as int).drop_last() =~= s@.subrange(a as int, b - 1));
        }
        b -= 1;
    }
    proof {
        assert(trim_end(s@.subrange(a as int, b as int)) =~= s@.subrange(a as int, b as int));
    }
    let mut r: Vec<char> = Vec::new();
    let mut i: usize = a;
    proof {
        assert(r@ =~= s@.subrange(a as int, a as int));
    }
    while i < b
        invariant
            a <= i <= b <= s@.len(),
            r@ == s@.subrange(a as int, i as int),
        decreases b - i,
    {
        proof {
            assert(s@.subrange(a as int, i + 1) =~= s@.subrange(a as int, i as int).push(
                s@[i as int],
            ));
        }
        r.push(s[i]);
        i += 1;
    }
    proof {
        assert(spec_trim(s@) == s@.subrange(a as int, b as int));
    }
    r
}

/// Splits the map text at the first delimiter occurrence: the board block
/// before it, the hint block after it.
fn split_at_delimiter(s: &Vec<char>) -> (r: (Vec<char>, Vec<char>))
    ensures
        r.0@ == board_part(s@),
        r.1@ == hint_part(s@),
{
    let len = s.len();
    let mut i: usize = 0;
    let mut found: Option<usize> = Option::None;
    if len >= 10 {
        while found.is_none() && i <= len - 10
            invariant
                len == s@.len(),
                len >= 10,
                i <= len - 10 + 1,
                match found {
                    Option::Some(j) => find_delimiter(s@, 0) == Option::Some(j as int) && j + 10
                        <= len,
                    Option::None => find_delimiter(s@, 0) == find_delimiter(s@, i as nat),
                },
            decreases len - i + (if found is Some {
                0int
            } else {
                1int
            }),
        {
            if s[i] == 'S' && s[i + 1] == 'P' && s[i + 2] == 'L' && s[i + 3] == 'I' && s[i + 4]
                == 'T' && s[i + 5] == '_' && s[i + 6] == 'H' && s[i + 7] == 'E' && s[i + 8] == 'R'
                && s[i + 9] == 'E' {
                proof {
                    assert(s@.subrange(i as int, i + 10) =~= delimiter());
                }
                found = Option::Some(i);
            } else {
                proof {
                    assert(s@.subrange(i as int, i + 10) != delimiter()) by {
                        if s@.subrange(i as int, i + 10) == delimiter() {
                            assert(s@.subrange(i as int, i + 10)[0] == s@[i as int]);
                            assert(s@.subrange(i as int, i + 10)[1] == s@[i + 1]);
                            assert(s@.subrange(i as int, i + 10)[2] == s@[i + 2]);
                            assert(s@.subrange(i as int, i + 10)[3] == s@[i + 3]);
                            assert(s@.subrange(i as int, i + 10)[4] == s@[i + 4]);
                            assert(s@.subrange(i as int, i + 10)[5] == s@[i + 5]);
                            assert(s@.subrange(i as int, i + 10)[6] == s@[i + 6]);
                            assert(s@.subrange(i as int, i + 10)[7] == s@[i + 7]);
                            assert(s@.subrange(i as int, i + 10)[8] == s@[i + 8]);
                            assert(s@.subrange(i as int, i + 10)[9] == s@[i + 9]);
                        }
                    }
                }
                i += 1;
            }
        }
    }
    match found {
        Option::Some(j) => {
            let mut board: Vec<char> = Vec::new();
            let mut p: usize = 0;
            proof {
                assert(board@ =~= s@.take(j as int).take(0));
            }
            while p < j
                invariant
                    j + 10 <= s@.len(),
                    p <= j,
                    board@ == s@.take(j as int).take(p as int),
                decreases j - p,
            {
                proof {
                    assert(s@.take(j as int).take(p + 1) =~= s@.take(j as int).take(p as int).push(
                        s@[p as int],
                    ));
                }
                board.push(s[p]);
                p += 1;
            }
            let mut hints: Vec<char> = Vec::new();
            let mut q: usize = j + 10;
            proof {
                assert(hints@ =~= s@.skip(j + 10).take(0));
            }
            while q < len
                invariant
                    j + 10 <= len == s@.len(),
                    j + 10 <= q <= len,
                    hints@ == s@.skip(j + 10).take(q - (j + 10)),
                decreases len - q,
            {
                proof {
                    assert(s@.skip(j + 10).take(q - (j + 10) + 1) =~= s@.skip(j + 10).take(
                        q - (j + 10),
                    ).push(s@[q as int]));
                }
                hints.push(s[q]);
                q += 1;
            }
            proof {
                assert(board@ =~= s@.take(j as int));
                assert(hints@ =~= s@.skip(j + 10));
            }
            (board, hints)
        },
        Option::None => {
            let mut board: Vec<char> = Vec::new();
            let mut p: usize = 0;
            proof {
                assert(board@ =~= s@.take(0));
            }
            while p < len
                invariant
                    len == s@.len(),
                    p <= len,
                    board@ == s@.take(p as int),
                decreases len - p,
            {
                proof {
                    assert(s@.take(p + 1) =~= s@.take(p as int).push(s@[p as int]));
                }
                board.push(s[p]);
                p += 1;
            }
            proof {
                assert(board@ =~= s@);
                assert(hint_part(s@) =~= Seq::<char>::empty());
            }
            (board, Vec::new())
        },
    }
}

/// A trimmed block split into its lines.
fn lines_of(s: &Vec<char>) -> (r: Vec<Vec<char>>)
    ensures
        r@.map_values(|line: Vec<char>| line@) == split_lines(s@),
{
    let len = s.len();
    let mut out: Vec<Vec<char>> = Vec::new();
    let mut p: usize = 0;
    proof {
        assert(out@.map_values(|l: Vec<char>| l@) + split_lines_from(s@, 0) =~= split_lines_from(
            s@,
            0,
        ));
    }
    while p < len
        invariant
            len == s@.len(),
            p <= len,
            split_lines(s@) == out@.map_values(|line: Vec<char>| line@) + split_lines_from(
                s@,
                p as nat,
            ),
        decreases len - p,
    {
        // Find the next line feed.
        let mut q: usize = p;
        while q < len && s[q] != '\n'
            invariant
                p <= q <= len,
                len == s@.len(),
                forall|m: int| p <= m < q ==> s@[m] != '\n',
            decreases len - q,
        {
            q += 1;
        }
        // The line runs from p to q; a line feed at q closes it and loses
        // a carriage return just before it.
        let stop = if q < len && q > p && s[q - 1] == '\r' {
            q - 1
        } else {
            q
        };
        let mut line: Vec<char> = Vec::new();
        proof {
            assert(s@.subrange(p as int, p as int) =~= line@);
        }
        let mut t: usize = p;
        while t < stop
            invariant
                p <= t <= stop <= len,
                len == s@.len(),
                line@ == s@.subrange(p as int, t as int),
            decreases stop - t,
        {
            proof {
                assert(s@.subrange(p as int, t + 1) =~= s@.subrange(p as int, t as int).push(
                    s@[t as int],
                ));
            }
            line.push(s[t]);
            t += 1;
        }
        proof {
            lemma_find_newline_from(s@, p as nat, q as nat);
            if q < len {
                assert(find_newline(s@, p as nat) == Option::Some(q as int));
                assert(strip_cr(s@.subrange(p as int, q as int)) =~= s@.subrange(
                    p as int,
                    stop as int,
                ));
                assert(split_lines_from(s@, p as nat) == seq![s@.subrange(p as int, stop as int)]
                    + split_lines_from(s@, (q + 1) as nat));
            } else {
                assert(find_newline(s@, p as nat) is None);
                assert(stop == q);
                assert(split_lines_from(s@, p as nat) == seq![s@.subrange(p as int, len as int)]);
                assert(split_lines_from(s@, p as nat) == seq![s@.subrange(p as int, stop as int)]
                    + Seq::<Seq<char>>::empty()) by {
                    assert(seq![s@.subrange(p as int, stop as int)] + Seq::<Seq<char>>::empty()
                        =~= seq![s@.subrange(p as int, stop as int)]);
                }
            }
        }
        let ghost out_before = out@;
        out.push(line);
        proof {
            assert(out@.map_values(|l: Vec<char>| l@) =~= out_before.map_values(
                |l: Vec<char>| l@,
            ).push(s@.subrange(p as int, stop as int)));
            let next = if q < len {
                (q + 1) as nat
            } else {
                len as nat
            };
            assert(split_lines_from(s@, len as nat) =~= Seq::<Seq<char>>::empty());
            assert(out_before.map_values(|l: Vec<char>| l@) + (seq![
                s@.subrange(p as int, stop as int),
            ] + split_lines_from(s@, next)) =~= out@.map_values(|l: Vec<char>| l@)
                + split_lines_from(s@, next));
        }
        if q < len {
            p = q + 1;
        } else {
            p = len;
        }
    }
    proof {
        assert(split_lines_from(s@, len as nat) =~= Seq::<Seq<char>>::empty());
        assert(out@.map_values(|l: Vec<char>| l@) + Seq::<Seq<char>>::empty() =~= out@.map_values(
            |l: Vec<char>| l@,
        ));
    }
    out
}

/// The view of one hint-table slot.
pub open spec fn opt_chars_view(o: Option<Vec<char>>) -> Option<Seq<char>> {
    match o {
        Option::Some(v) => Option::Some(v@),
        Option::None => Option::None,
    }
}

/// An exact copy of a character block.
fn clone_chars(v: &Vec<char>) -> (r: Vec<char>)
    ensures
        r@ == v@,
{
    let mut r: Vec<char> = Vec::new();
    let mut i: usize = 0;
    while i < v.len()
        invariant
            i <= v@.len(),
            r@ == v@.take(i as int),
        decreases v@.len() - i,
    {
        proof {
            assert(v@.take(i + 1) =~= v@.take(i as int).push(v@[i as int]));
        }
        r.push(v[i]);
        i += 1;
    }
    proof {
        assert(v@.take(v@.len() as int) =~= v@);
    }
    r
}

/// The digit value of a digit glyph.
fn digit_of(c: char) -> (r: Option<u8>)
    ensures
        r is Some <==> is_digit(c),
        r is Some ==> r->0 == spec_digit(c),
{
    match c {
        '0' => Option::Some(0),
        '1' => Option::Some(1),
        '2' => Option::Some(2),
        '3' => Option::Some(3),
        '4' => Option::Some(4),
        '5' => Option::Some(5),
        '6' => Option::Some(6),
        '7' => Option::Some(7),
        '8' => Option::Some(8),
        '9' => Option::Some(9),
        _ => Option::None,
    }
}

/// The key/text pair of one hint line, with the key clamped to 15: keys
/// past the table's end are all alike ignored, so their exact value does
/// not matter.
fn hint_entry_of(line: &Vec<char>) -> (r: Option<(usize, Vec<char>)>)
    ensures
        r is Some <==> hint_entry(line@) is Some,
        r is Some ==> {
            let entry = hint_entry(line@)->0;
            &&& (r->0).1@ == entry.1
            &&& (entry.0 < 15 ==> (r->0).0 == entry.0)
            &&& (entry.0 >= 15 ==> (r->0).0 == 15)
        },
{
    let len = line.len();
    // Find the first `::`.
    let mut i: usize = 0;
    let mut found: Option<usize> = Option::None;
    if len >= 2 {
        while found.is_none() && i <= len - 2
            invariant
                len == line@.len(),
                len >= 2,
                i <= len - 2 + 1,
                match found {
                    Option::Some(j) => find_colons(line@, 0) == Option::Some(j as int) && j + 2
                        <= len,
                    Option::None => find_colons(line@, 0) == find_colons(line@, i as nat),
                },
            decreases len - i + (if found is Some {
                0int
            } else {
                1int
            }),
        {
            if line[i] == ':' && line[i + 1] == ':' {
                found = Option::Some(i);
            } else {
                i += 1;
            }
        }
    }
    let j = match found {
        Option::Some(j) => j,
        Option::None => {
            return Option::None;
        },
    };
    if j == 0 {
        // An empty key is skipped.
        proof {
            assert(line@.take(0) =~= Seq::<char>::empty());
        }
        return Option::None;
    }
    // The key must be all digits; its value is accumulated with a clamp at
    // 15, above which every key is equally out of the table.
    let ghost key = line@.take(j as int);
    let mut value: usize = 0;
    let mut m: usize = 0;
    proof {
        assert(key.take(0) =~= Seq::<char>::empty());
    }
    while m < j
        invariant
            m <= j,
            j + 2 <= line@.len(),
            find_colons(line@, 0) == Option::Some(j as int),
            key == line@.take(j as int),
            key.len() == j,
            forall|t: int| 0 <= t < m ==> is_digit(#[trigger] key[t]),
            (spec_digits_value(key.take(m as int)) <= 14 && value == spec_digits_value(
                key.take(m as int),
            )) || (spec_digits_value(key.take(m as int)) >= 15 && value == 15),
        decreases j - m,
    {
        let d = match digit_of(line[m]) {
            Option::Some(d) => d,
            Option::None => {
                proof {
                    assert(key[m as int] == line@[m as int]);
                    assert(!is_digit(key[m as int]));
                }
                return Option::None;
            },
        };
        proof {
            assert(key[m as int] == line@[m as int]);
            assert(key.take(m + 1).drop_last() =~= key.take(m as int));
            assert(key.take(m + 1).last() == key[m as int]);
        }
        value = value * 10 + d as usize;
        if value > 14 {
            value = 15;
        }
        m += 1;
    }
    proof {
        assert(key.take(j as int) =~= key);
        assert(hint_entry(line@) is Some);
    }
    // The text is everything after the `::`.
    let mut text: Vec<char> = Vec::new();
    let mut t: usize = j + 2;
    proof {
        assert(text@ =~= line@.skip(j + 2).take(0));
    }
    while t < len
        invariant
            len == line@.len(),
            j + 2 <= t <= len,
            text@ == line@.skip(j + 2).take(t - (j + 2)),
        decreases len - t,
    {
        proof {
            assert(line@.skip(j + 2).take(t - (j + 2) + 1) =~= line@.skip(j + 2).take(
                t - (j + 2),
            ).push(line@[t as int]));
        }
        text.push(line[t]);
        t += 1;
    }
    proof {
        assert(text@ =~= line@.skip(j + 2));
    }
    Option::Some((value, text))
}

/// The hint table of a block's lines: 15 slots, filled in order.
fn hint_table(lines: &Vec<Vec<char>>) -> (r: Vec<Option<Vec<char>>>)
    ensures
        r@.map_values(|o: Option<Vec<char>>| opt_chars_view(o)) == hint_table_of(
            lines@.map_values(|line: Vec<char>| line@),
        ),
{
    let mut table: Vec<Option<Vec<char>>> = Vec::new();
    let mut s: usize = 0;
    while s < 15
        invariant
            s <= 15,
            table@.len() == s,
            forall|t: int| 0 <= t < s ==> #[trigger] table@[t] is None,
        decreases 15 - s,
    {
        table.push(Option::None);
        s += 1;
    }
    let ghost views = lines@.map_values(|line: Vec<char>| line@);
    let mut i: usize = 0;
    proof {
        assert(table@.map_values(|o: Option<Vec<char>>| opt_chars_view(o)) =~= hint_table_of(
            views.take(0),
        )) by {
            assert(views.take(0) =~= Seq::<Seq<char>>::empty());
        }
    }
    while i < lines.len()
        invariant
            i <= lines@.len(),
            views == lines@.map_values(|line: Vec<char>| line@),
            table@.len() == 15,
            table@.map_values(|o: Option<Vec<char>>| opt_chars_view(o)) == hint_table_of(
                views.take(i as int),
            ),
        decreases lines@.len() - i,
    {
        let ghost table_before = table@;
        match hint_entry_of(&lines[i]) {
            Option::Some(entry) => {
                let (k, text) = entry;
                if k < 15 {
                    let slot = &mut table[k];
                    *slot = Option::Some(text);
                }
            },
            Option::None => {},
        }
        proof {
            assert(views.take(i + 1).drop_last() =~= views.take(i as int));
            assert(views.take(i + 1).last() == views[i as int]);
            assert(views[i as int] == lines@[i as int]@);
            assert(table@.map_values(|o: Option<Vec<char>>| opt_chars_view(o)) =~= hint_table_of(
                views.take(i + 1),
            ));
        }
        i += 1;
    }
    proof {
        assert(views.take(views.len() as int) =~= views);
    }
    table
}

/// The tile one glyph denotes, under the given hint table.
fn tile_for(c: char, table: &Vec<Option<Vec<char>>>) -> (t: Tile)
    ensures
        tile_matches(t, c, table@.map_values(|o: Option<Vec<char>>| opt_chars_view(o))),
{
    let ghost tview = table@.map_values(|o: Option<Vec<char>>| opt_chars_view(o));
    match c {
        'z' | 'x' | 'c' | 'v' | 'b' | 'n' | 'm' => {
            let channel = match c {
                'z' => 'Z',
                'x' => 'X',
                'c' => 'C',
                'v' => 'V',
                'b' => 'B',
                'n' => 'N',
                _ => 'M',
            };
            Tile { top: TopTileType::Nothing, bottom: BottomTileType::PressurePlate(channel) }
        },
        'Z' | 'X' | 'C' | 'V' | 'B' | 'N' | 'M' => Tile {
            top: TopTileType::Door(c),
            bottom: BottomTileType::Nothing,
        },
        'A' | 'S' | 'D' | 'F' | 'G' | 'H' | 'J' => {
            let channel = match c {
                'A' => 'Z',
                'S' => 'X',
                'D' => 'C',
                'F' => 'V',
                'G' => 'B',
                'H' => 'N',
                _ => 'M',
            };
            Tile { top: TopTileType::Nothing, bottom: BottomTileType::AntiDoor(channel) }
        },
        '#' => Tile { top: TopTileType::Wall, bottom: BottomTileType::Nothing },
        '%' => Tile { top: TopTileType::Snake, bottom: BottomTileType::Nothing },
        '$' => Tile { top: TopTileType::Nothing, bottom: BottomTileType::Spike },
        '|' => Tile { top: TopTileType::Nothing, bottom: BottomTileType::Exit },
        _ => {
            match digit_of(c) {
                Option::Some(d) => {
                    if (d as usize) < table.len() {
                        match &table[d as usize] {
                            Option::Some(text) => Tile {
                                top: TopTileType::Wall,
                                bottom: BottomTileType::TextHint(clone_chars(text)),
                            },
                            Option::None => Tile {
                                top: TopTileType::Nothing,
                                bottom: BottomTileType::Nothing,
                            },
                        }
                    } else {
                        Tile { top: TopTileType::Nothing, bottom: BottomTileType::Nothing }
                    }
                },
                Option::None => Tile { top: TopTileType::Nothing, bottom: BottomTileType::Nothing },
            }
        },
    }
}

/// The rows of the board block of a map text, top row first.
pub open spec fn board_rows(text: Seq<char>) -> Seq<Seq<char>> {
    split_lines(spec_trim(board_part(text)))
}

/// Whether the board block is a well-formed rectangle: at least one row,
/// at least one column, all rows of one length.
pub open spec fn board_ok(text: Seq<char>) -> bool {
    let rows = board_rows(text);
    &&& rows.len() > 0
    &&& rows[0].len() > 0
    &&& forall|i: int| 0 <= i < rows.len() ==> #[trigger] rows[i].len() == rows[0].len()
}

/// Parses a map text into a `GameMap`. The text is a rectangular block of
/// glyph rows, read bottom-to-top into increasing `y`, optionally followed
/// by a delimited block of `index::text` hint pairs that digit glyphs look
/// their hint text up in. A text whose board block is empty or ragged is a
/// load failure surfaced to the caller, never a panic; a digit glyph whose
/// hint entry is missing degrades to an empty tile.
pub fn parse_map(text: &Vec<char>) -> (r: Result<GameMap, MapError>)
    ensures
        r is Ok <==> board_ok(text@),
        r is Ok ==> {
            let m = r->Ok_0;
            let rows = board_rows(text@);
            let table = spec_hint_table(text@);
            &&& m.wf()
            &&& doors_clean(m@)
            &&& m@.len() == rows[0].len()
            &&& m@[0].len() == rows.len()
            &&& forall|x: int, y: int|
                0 <= x < m@.len() && 0 <= y < m@[0].len() ==> tile_matches(
                    #[trigger] m@[x][y],
                    rows[rows.len() - 1 - y][x],
                    table,
                )
        },
        r is Err ==> (r->Err_0 == MapError::EmptyMap <==> (board_rows(text@).len() == 0
            || board_rows(text@)[0].len() == 0)),
{
    let (board_raw, hints_raw) = split_at_delimiter(text);
    let board = trim_chars(&board_raw);
    let rows = lines_of(&board);
    let ghost rowsv = board_rows(text@);
    proof {
        assert(rows@.map_values(|line: Vec<char>| line@) == rowsv);
    }
    let h = rows.len();
    if h == 0 {
        return Result::Err(MapError::EmptyMap);
    }
    let w = rows[0].len();
    proof {
        assert(rowsv[0] == rows@[0]@);
    }
    if w == 0 {
        return Result::Err(MapError::EmptyMap);
    }
    let mut i: usize = 0;
    while i < h
        invariant
            h == rows@.len(),
            h > 0,
            w > 0,
            rowsv == rows@.map_values(|line: Vec<char>| line@),
            rowsv == board_rows(text@),
            w == rowsv[0].len(),
            i <= h,
            forall|t: int| 0 <= t < i ==> #[trigger] rowsv[t].len() == w,
        decreases h - i,
    {
        if rows[i].len() != w {
            proof {
                assert(rowsv[i as int].len() != w);
                assert(rowsv[i as int].len() != rowsv[0].len());
                assert(!board_ok(text@));
                assert(board_rows(text@).len() > 0);
                assert(board_rows(text@)[0].len() > 0);
            }
            return Result::Err(MapError::InconsistentRows);
        }
        proof {
            assert(rowsv[i as int] == rows@[i as int]@);
        }
        i += 1;
    }
    let hints_trimmed = trim_chars(&hints_raw);
    let hlines = lines_of(&hints_trimmed);
    let table = hint_table(&hlines);
    let ghost tview = spec_hint_table(text@);
    proof {
        assert(table@.map_values(|o: Option<Vec<char>>| opt_chars_view(o)) == tview);
    }
    // Build the tile matrix, column-first; row 0 of the grid is the last
    // row of the text.
    let mut tiles: Vec<Vec<Tile>> = Vec::new();
    let mut x: usize = 0;
    while x < w
        invariant
            h == rows@.len(),
            h > 0,
            w > 0,
            rowsv == rows@.map_values(|line: Vec<char>| line@),
            forall|t: int| 0 <= t < h ==> #[trigger] rowsv[t].len() == w,
            tview == spec_hint_table(text@),
            table@.map_values(|o: Option<Vec<char>>| opt_chars_view(o)) == tview,
            x <= w,
            tiles@.len() == x,
            forall|i2: int| 0 <= i2 < x ==> (#[trigger] tiles@[i2])@.len() == h,
            forall|i2: int, j2: int|
                0 <= i2 < x && 0 <= j2 < h ==> tile_matches(
                    #[trigger] tiles@[i2]@[j2],
                    rowsv[h - 1 - j2][i2],
                    tview,
                ),
        decreases w - x,
    {
        let mut column: Vec<Tile> = Vec::new();
        let mut y: usize = 0;
        while y < h
            invariant
                h == rows@.len(),
                h > 0,
                w > 0,
                x < w,
                rowsv == rows@.map_values(|line: Vec<char>| line@),
                forall|t: int| 0 <= t < h ==> #[trigger] rowsv[t].len() == w,
                tview == spec_hint_table(text@),
                table@.map_values(|o: Option<Vec<char>>| opt_chars_view(o)) == tview,
                y <= h,
                column@.len() == y,
                forall|j2: int|
                    0 <= j2 < y ==> tile_matches(
                        #[trigger] column@[j2],
                        rowsv[h - 1 - j2][x as int],
                        tview,
                    ),
            decreases h - y,
        {
            proof {
                assert(rowsv[h - 1 - y] == rows@[h - 1 - y]@);
            }
            let glyph = rows[h - 1 - y][x];
            column.push(tile_for(glyph, &table));
            y += 1;
        }
        tiles.push(column);
        x += 1;
    }
    match GameMap::new(tiles) {
        Option::Some(m) => {
            proof {
                let mv = m@;
                assert forall|x2: int, y2: int|
                    0 <= x2 < mv.len() && 0 <= y2 < mv[0].len() implies ((#[trigger] mv[x2][y2]).top
                    is Door ==> mv[x2][y2].bottom is Nothing) by {
                    assert(tile_matches(mv[x2][y2], rowsv[h - 1 - y2][x2], tview));
                }
            }
            Result::Ok(m)
        },
        Option::None => {
            proof {
                assert(false);
            }
            Result::Err(MapError::EmptyMap)
        },
    }
}

/// The per-level rewind budgets: `total` rewind operations and
/// `individual` cumulative steps, by level number; an unrecognised level
/// gets a generous fallback.
pub open spec fn spec_budget_for_level(level: u32) -> RewindCounter {
    if level == 1 {
        RewindCounter { total: 2, individual: 1 }
    } else if level == 2 {
        RewindCounter { total: 50, individual: 100 }
    } else if level == 3 {
        RewindCounter { total: 0, individual: 10 }
    } else if level == 4 {
        RewindCounter { total: 0, individual: 5 }
    } else if level == 5 {
        RewindCounter { total: 4, individual: 20 }
    } else if level == 6 {
        RewindCounter { total: 2, individual: 15 }
    } else if level == 7 {
        RewindCounter { total: 2, individual: 10 }
    } else if level == 8 {
        RewindCounter { total: 1, individual: 30 }
    } else if level == 9 {
        RewindCounter { total: 4, individual: 30 }
    } else if level == 10 {
        RewindCounter { total: 2, individual: 10 }
    } else if level == 11 {
        RewindCounter { total: 4, individual: 20 }
    } else if level == 12 {
        RewindCounter { total: 2, individual: 30 }
    } else if level == 13 {
        RewindCounter { total: 2, individual: 30 }
    } else if level == 14 {
        RewindCounter { total: 4, individual: 30 }
    } else if level == 15 {
        RewindCounter { total: 4, individual: 30 }
    } else {
        RewindCounter { total: 100, individual: 100 }
    }
}

/// The rewind budgets a level starts with.
pub fn init_rewinds(level: u32) -> (r: RewindCounter)
    ensures
        r == spec_budget_for_level(level),
{
    let (total, individual): (isize, isize) = if level == 1 {
        (2, 1)
    } else if level == 2 {
        (50, 100)
    } else if level == 3 {
        (0, 10)
    } else if level == 4 {
        (0, 5)
    } else if level == 5 {
        (4, 20)
    } else if level == 6 {
        (2, 15)
    } else if level == 7 {
        (2, 10)
    } else if level == 8 {
        (1, 30)
    } else if level == 9 {
        (4, 30)
    } else if level == 10 {
        (2, 10)
    } else if level == 11 {
        (4, 20)
    } else if level == 12 {
        (2, 30)
    } else if level == 13 {
        (2, 30)
    } else if level == 14 {
        (4, 30)
    } else if level == 15 {
        (4, 30)
    } else {
        (100, 100)
    };
    RewindCounter { total, individual }
}

} // verus!
