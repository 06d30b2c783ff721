//! How a stack of views shares out the space that it is given.

use crate::views::Size;
use vstd::prelude::*;

verus! {

/// The direction in which a stack lays out its views.
#[derive(Debug, Clone, Copy, PartialEq, Eq, Structural, Hash)]
pub enum Direction {
    Horizontal,
    Vertical,
}

/// What a view asks of the space along the direction of its stack.
#[derive(Debug, Clone, Copy, PartialEq, Eq, Structural, Hash)]
pub enum Constraint {
    /// Exactly this many character cells.
    Length(u16),
    /// A share of what the views of fixed length leave, of this weight.
    Fill(u16),
    /// This fraction of the whole: numerator, then denominator.
    Ratio(u32, u32),
}

/// The constraint of a view with the wish `preferred` in a stack that runs in
/// `direction`: the length that it wishes for along the direction, or an equal
/// share of the rest where it has no wish.
pub open spec fn wish_of(direction: Direction, preferred: Option<Size>) -> Constraint {
    match preferred {
        Some(size) => match direction {
            Direction::Horizontal => Constraint::Length(size.width),
            Direction::Vertical => Constraint::Length(size.height),
        },
        None => Constraint::Fill(1),
    }
}

/// The area that a view with the wish `preferred` gets out of `area`, its part
/// of a stack that runs in `direction`. Across the direction the view gets no
/// more than it wishes for, a wish of 0 standing for no wish; along the
/// direction it gets what the stack gave it.
pub open spec fn fitted(direction: Direction, preferred: Option<Size>, area: Size) -> Size {
    match preferred {
        Some(size) => match direction {
            Direction::Horizontal => if size.height != 0 && size.height < area.height {
                Size { width: area.width, height: size.height }
            } else {
                area
            },
            Direction::Vertical => if size.width != 0 && size.width < area.width {
                Size { width: size.width, height: area.height }
            } else {
                area
            },
        },
        None => area,
    }
}

/// The constraint of one view of a stack.
pub fn constraint_for(direction: Direction, preferred: Option<Size>) -> (constraint: Constraint)
    ensures
        constraint == wish_of(direction, preferred),
{
    match preferred {
        Some(size) => {
            let length = match direction {
                Direction::Horizontal => size.width,
                Direction::Vertical => size.height,
            };
            Constraint::Length(length)
        },
        None => Constraint::Fill(1),
    }
}

/// The constraints of the views of a stack, one for each wish and in their
/// order.
pub fn constraints_for(direction: Direction, preferred: &Vec<Option<Size>>) -> (constraints: Vec<
    Constraint,
>)
    ensures
        constraints@ == Seq::new(preferred@.len(), |i: int| wish_of(direction, preferred@[i])),
{
    let mut constraints: Vec<Constraint> = Vec::with_capacity(preferred.len());
    let mut i: usize = 0;
    while i < preferred.len()
        invariant
            i <= preferred.len(),
            constraints@ == Seq::new(i as nat, |k: int| wish_of(direction, preferred@[k])),
        decreases preferred.len() - i,
    {
        constraints.push(constraint_for(direction, preferred[i]));
        i += 1;
        proof {
            assert(constraints@ =~= Seq::new(i as nat, |k: int| wish_of(direction, preferred@[k])));
        }
    }
    constraints
}

/// The constraints that split a space among `count` views in equal parts.
pub fn equal_split(count: u16) -> (constraints: Vec<Constraint>)
    ensures
        constraints@ == Seq::new(count as nat, |i: int| Constraint::Ratio(1, count as u32)),
{
    let mut constraints: Vec<Constraint> = Vec::with_capacity(count as usize);
    let mut i: u16 = 0;
    while i < count
        invariant
            i <= count,
            constraints@ == Seq::new(i as nat, |k: int| Constraint::Ratio(1, count as u32)),
        decreases count - i,
    {
        constraints.push(Constraint::Ratio(1, count as u32));
        i += 1;
        proof {
            assert(constraints@ =~= Seq::new(
                i as nat,
                |k: int| Constraint::Ratio(1, count as u32),
            ));
        }
    }
    constraints
}

/// The area in which a view of a stack is drawn.
pub fn fit_area(direction: Direction, preferred: Option<Size>, area: Size) -> (fit: Size)
    ensures
        fit == fitted(direction, preferred, area),
        fit.width <= area.width,
        fit.height <= area.height,
{
    let mut fit = area;
    match (direction, preferred) {
        (Direction::Horizontal, Some(size)) => {
            if size.height != 0 && size.height < area.height {
                fit.height = size.height;
            }
        },
        (Direction::Vertical, Some(size)) => {
            if size.width != 0 && size.width < area.width {
                fit.width = size.width;
            }
        },
        _ => {},
    }
    fit
}

} // verus!
