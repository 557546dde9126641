//! Parsing and validation of player input.
//!
//! The embedding program reads raw lines of text; the functions here decide
//! what those bytes mean: an unsigned decimal number, a grid size, a ship
//! count, or a whitespace-separated pair of in-bounds coordinates. Every
//! rejection is a re-prompt for the caller, never a crash.

use crate::board::MAX_GRID_SIZE;
use vstd::prelude::*;

verus! {

/// Whether a byte is an ASCII decimal digit.
pub open spec fn is_digit(b: u8) -> bool {
    48 <= b <= 57
}

/// The numeric value of a digit byte.
pub open spec fn digit_val(b: u8) -> int {
    b - 48
}

/// Whether a byte is blank: a space or tab, or a line-break byte left on the
/// line by the reader.
pub open spec fn is_space(b: u8) -> bool {
    b == 32 || b == 9 || b == 13 || b == 10
}

/// Whether every byte of the sequence is a decimal digit.
pub open spec fn all_digits(s: Seq<u8>) -> bool {
    forall|i: int| 0 <= i < s.len() ==> is_digit(#[trigger] s[i])
}

/// The value of a digit sequence read as a decimal numeral.
pub open spec fn decimal_val(s: Seq<u8>) -> int
    decreases s.len(),
{
    if s.len() == 0 {
        0
    } else {
        decimal_val(s.drop_last()) * 10 + digit_val(s.last())
    }
}

/// Whether a byte sequence is a decimal numeral whose value fits the machine:
/// non-empty, all digits, and no larger than `usize::MAX`.
pub open spec fn is_numeric(s: Seq<u8>) -> bool {
    s.len() > 0 && all_digits(s) && decimal_val(s) <= usize::MAX
}

proof fn lemma_decimal_val_nonneg(s: Seq<u8>)
    requires
        all_digits(s),
    ensures
        decimal_val(s) >= 0,
    decreases s.len(),
{
    if s.len() > 0 {
        assert forall|i: int| 0 <= i < s.drop_last().len() implies is_digit(
            #[trigger] s.drop_last()[i],
        ) by {
            assert(s.drop_last()[i] == s[i]);
        }
        lemma_decimal_val_nonneg(s.drop_last());
    }
}

/// A decimal numeral is at least as large as any of its prefixes.
proof fn lemma_decimal_val_prefix_le(s: Seq<u8>, i: int)
    requires
        all_digits(s),
        0 <= i <= s.len(),
    ensures
        decimal_val(s.take(i)) <= decimal_val(s),
    decreases s.len() - i,
{
    if i == s.len() {
        assert(s.take(i) =~= s);
    } else {
        lemma_decimal_val_prefix_le(s, i + 1);
        assert(s.take(i + 1).drop_last() =~= s.take(i));
        assert(s.take(i + 1).last() == s[i]);
        assert forall|k: int| 0 <= k < s.take(i).len() implies is_digit(
            #[trigger] s.take(i)[k],
        ) by {
            assert(s.take(i)[k] == s[k]);
        }
        lemma_decimal_val_nonneg(s.take(i));
        assert(decimal_val(s.take(i + 1)) == decimal_val(s.take(i)) * 10 + digit_val(s[i]));
    }
}

/// Parse an unsigned decimal numeral: `Some` exactly on non-empty all-digit
/// input whose value fits a `usize`, and then the numeral's value.
pub fn parse_usize(s: &[u8]) -> (parsed: Option<usize>)
    ensures
        match parsed {
            Option::Some(v) => is_numeric(s@) && v as int == decimal_val(s@),
            Option::None => !is_numeric(s@),
        },
{
    if s.len() == 0 {
        return Option::None;
    }
    let mut acc: usize = 0;
    let mut i: usize = 0;
    while i < s.len()
        invariant
            0 < s@.len(),
            i <= s@.len(),
            forall|k: int| 0 <= k < i ==> is_digit(#[trigger] s@[k]),
            acc as int == decimal_val(s@.take(i as int)),
        decreases s@.len() - i,
    {
        let b = s[i];
        if b < 48 || b > 57 {
            proof {
                assert(!is_digit(s@[i as int]));
            }
            return Option::None;
        }
        let d = b - 48;
        proof {
            assert(s@.take(i as int + 1).drop_last() =~= s@.take(i as int));
            assert(s@.take(i as int + 1).last() == s@[i as int]);
            assert(decimal_val(s@.take(i as int + 1)) == acc as int * 10 + digit_val(
                s@[i as int],
            ));
        }
        let wide: u128 = (acc as u128) * 10 + (d as u128);
        if wide > (usize::MAX as u128) {
            proof {
                if is_numeric(s@) {
                    lemma_decimal_val_prefix_le(s@, i as int + 1);
                }
            }
            return Option::None;
        }
        acc = wide as usize;
        i = i + 1;
    }
    proof {
        assert(s@.take(s@.len() as int) =~= s@);
    }
    Option::Some(acc)
}

/// The maximal blank-separated words of a byte sequence, in order.
pub open spec fn tokens(s: Seq<u8>) -> Seq<Seq<u8>>
    decreases s.len(),
{
    if s.len() == 0 {
        Seq::empty()
    } else {
        let rest = tokens(s.drop_last());
        let b = s.last();
        if is_space(b) {
            rest
        } else if s.len() >= 2 && !is_space(s[s.len() - 2]) {
            rest.update(rest.len() - 1, rest.last().push(b))
        } else {
            rest.push(seq![b])
        }
    }
}

/// The byte sequences held by a list of byte vectors.
pub open spec fn views(parts: Seq<Vec<u8>>) -> Seq<Seq<u8>> {
    parts.map_values(|t: Vec<u8>| t@)
}

fn is_space_byte(b: u8) -> (space: bool)
    ensures
        space == is_space(b),
{
    b == 32 || b == 9 || b == 13 || b == 10
}

/// Split a byte sequence into its maximal blank-separated words.
pub fn split_tokens(s: &[u8]) -> (parts: Vec<Vec<u8>>)
    ensures
        views(parts@) == tokens(s@),
{
    let mut parts: Vec<Vec<u8>> = Vec::new();
    let mut i: usize = 0;
    while i < s.len()
        invariant
            i <= s@.len(),
            views(parts@) == tokens(s@.take(i as int)),
            (i > 0 && !is_space(s@[i as int - 1])) ==> parts@.len() > 0,
        decreases s@.len() - i,
    {
        let ghost tpre = tokens(s@.take(i as int));
        proof {
            assert(s@.take(i as int + 1).drop_last() =~= s@.take(i as int));
            assert(s@.take(i as int + 1).last() == s@[i as int]);
        }
        let b = s[i];
        if is_space_byte(b) {
            proof {
                assert(tokens(s@.take(i as int + 1)) == tpre);
            }
        } else if i > 0 && !is_space_byte(s[i - 1]) {
            let ghost before = parts@;
            let popped = parts.pop();
            let mut word = match popped {
                Option::Some(w) => w,
                Option::None => Vec::new(),
            };
            word.push(b);
            parts.push(word);
            proof {
                assert(s@.take(i as int + 1)[i as int - 1] == s@[i as int - 1]);
                assert(tokens(s@.take(i as int + 1)) == tpre.update(
                    tpre.len() - 1,
                    tpre.last().push(s@[i as int]),
                ));
                assert(parts@.len() == before.len());
                assert(views(parts@) =~~= tpre.update(tpre.len() - 1, tpre.last().push(b)));
            }
        } else {
            let mut word: Vec<u8> = Vec::new();
            word.push(b);
            parts.push(word);
            proof {
                assert(word@ =~= seq![b]);
                assert(tokens(s@.take(i as int + 1)) == tpre.push(seq![b]));
                assert(views(parts@) =~~= tpre.push(seq![b]));
            }
        }
        i = i + 1;
    }
    proof {
        assert(s@.take(s@.len() as int) =~= s@);
    }
    parts
}

/// The coordinate pair a line of input denotes on an `n`-sided grid: exactly
/// two blank-separated words, each a machine-sized decimal numeral, each
/// value within bounds.
pub open spec fn coordinate_pair_of(s: Seq<u8>, n: int) -> Option<(int, int)> {
    if tokens(s).len() == 2 && is_numeric(tokens(s)[0]) && is_numeric(tokens(s)[1])
        && decimal_val(tokens(s)[0]) < n && decimal_val(tokens(s)[1]) < n {
        Option::Some(((decimal_val(tokens(s)[0]), decimal_val(tokens(s)[1]))))
    } else {
        Option::None
    }
}

/// Parse a human guess: two blank-separated decimal coordinates, both within
/// the grid. Anything else is rejected for a re-prompt.
pub fn parse_coordinate_pair(line: &[u8], grid_size: usize) -> (parsed: Option<(usize, usize)>)
    ensures
        match parsed {
            Option::Some(p) => coordinate_pair_of(line@, grid_size as int) == Option::Some(
                (((p.0 as int, p.1 as int))),
            ),
            Option::None => coordinate_pair_of(line@, grid_size as int) is None,
        },
{
    let parts = split_tokens(line);
    if parts.len() != 2 {
        return Option::None;
    }
    let first = parse_usize(parts[0].as_slice());
    let second = parse_usize(parts[1].as_slice());
    match (first, second) {
        (Option::Some(x), Option::Some(y)) => {
            if x < grid_size && y < grid_size {
                Option::Some((x, y))
            } else {
                Option::None
            }
        },
        _ => Option::None,
    }
}

/// Whether a line denotes a permitted grid size.
pub open spec fn valid_grid_size(s: Seq<u8>) -> bool {
    is_numeric(s) && 1 <= decimal_val(s) <= MAX_GRID_SIZE
}

/// Parse the configured grid size: a decimal numeral from 1 to the largest
/// permitted side length. Anything else is rejected for a re-prompt.
pub fn parse_grid_size(line: &[u8]) -> (parsed: Option<usize>)
    ensures
        match parsed {
            Option::Some(v) => valid_grid_size(line@) && v as int == decimal_val(line@) && 1 <= v
                <= MAX_GRID_SIZE,
            Option::None => !valid_grid_size(line@),
        },
{
    match parse_usize(line) {
        Option::Some(v) => {
            if 1 <= v && v <= MAX_GRID_SIZE {
                Option::Some(v)
            } else {
                Option::None
            }
        },
        Option::None => Option::None,
    }
}

/// Whether a line denotes a permitted ship count for an `n`-sided grid.
pub open spec fn valid_ship_count(s: Seq<u8>, n: int) -> bool {
    is_numeric(s) && 1 <= decimal_val(s) <= n * n
}

/// Parse the configured ship count: a decimal numeral from 1 to the number
/// of cells of the grid. Anything else is rejected for a re-prompt.
pub fn parse_ship_count(line: &[u8], grid_size: usize) -> (parsed: Option<usize>)
    requires
        1 <= grid_size <= MAX_GRID_SIZE,
    ensures
        match parsed {
            Option::Some(v) => valid_ship_count(line@, grid_size as int) && v as int
                == decimal_val(line@) && 1 <= v <= grid_size * grid_size,
            Option::None => !valid_ship_count(line@, grid_size as int),
        },
{
    proof {
        assert(grid_size * grid_size <= 100) by (nonlinear_arith)
            requires
                1 <= grid_size <= 10,
        ;
    }
    let cells = grid_size * grid_size;
    match parse_usize(line) {
        Option::Some(v) => {
            if 1 <= v && v <= cells {
                Option::Some(v)
            } else {
                Option::None
            }
        },
        Option::None => Option::None,
    }
}

} // verus!
