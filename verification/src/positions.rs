//! Source positions, spans and the character/position stream of a text.

use crate::text::{nat_digits, push_chars, push_u64, string_from_chars};
use std::cmp::Ordering;
use std::rc::Rc;
use vstd::prelude::*;
use vstd::std_specs::cmp::PartialOrdSpecImpl;

verus! {

/// A position in source code.
#[derive(Debug, Clone, Copy, PartialEq, Eq, Structural, Ord)]
pub struct Position {
    /// The line, starting at 1.
    pub line: u32,
    /// The column, starting at 1.
    pub column: u32,
}

/// The order of positions: first by line, then by column.
pub open spec fn position_order(a: Position, b: Position) -> Ordering {
    if a.line == b.line {
        if a.column < b.column {
            Ordering::Less
        } else if a.column == b.column {
            Ordering::Equal
        } else {
            Ordering::Greater
        }
    } else if a.line < b.line {
        Ordering::Less
    } else {
        Ordering::Greater
    }
}

impl PartialOrd for Position {
    fn partial_cmp(&self, other: &Self) -> (r: Option<Ordering>) {
        if self.line == other.line {
            if self.column < other.column {
                Some(Ordering::Less)
            } else if self.column == other.column {
                Some(Ordering::Equal)
            } else {
                Some(Ordering::Greater)
            }
        } else if self.line < other.line {
            Some(Ordering::Less)
        } else {
            Some(Ordering::Greater)
        }
    }
}

impl PartialOrdSpecImpl for Position {
    open spec fn obeys_partial_cmp_spec() -> bool {
        true
    }

    open spec fn partial_cmp_spec(&self, other: &Self) -> Option<Ordering> {
        Some(position_order(*self, *other))
    }
}

/// Positions are totally ordered: exactly one of less, equal or greater holds,
/// and equal positions are the same position.
pub proof fn lemma_position_order_total(a: Position, b: Position)
    ensures
        (position_order(a, b) == Ordering::Equal) <==> a == b,
        (position_order(a, b) == Ordering::Less) <==> (position_order(b, a) == Ordering::Greater),
{
}

/// The order of positions is transitive.
pub proof fn lemma_position_order_transitive(a: Position, b: Position, c: Position)
    requires
        position_order(a, b) == Ordering::Less,
        position_order(b, c) == Ordering::Less,
    ensures
        position_order(a, c) == Ordering::Less,
{
}

} // verus!
