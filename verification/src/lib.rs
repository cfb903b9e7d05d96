//! Solvers for a set of daily text puzzles: each day's module turns the
//! puzzle text into a small structured value and computes two answers from it.
//!
//! Every function states what it returns over the characters of its input.
//! A function that cannot answer for every input comes twice: under its plain
//! name with a precondition, and as a `checked_` function that returns `None`
//! or an error where the precondition does not hold.
//!
//! [`text`] holds the handling of characters that the parsers share,
//! [`pattern`] the searches that are left to the `regex` crate, [`grid`] a
//! grid of cells, and [`input`] the places where puzzle texts are kept. The
//! modules [`laws`], [`arrivals`], [`crossings`], [`rounds`] and
//! [`wildcards`] hold what is proved about the solvers beyond their own
//! contracts.
use vstd::prelude::*;

pub mod arrivals;
pub mod crossings;
pub mod day01;
pub mod day02;
pub mod day03;
pub mod day04;
pub mod day05;
pub mod day06;
pub mod day07;
pub mod day08;
pub mod day09;
pub mod day10;
pub mod day11;
pub mod grid;
pub mod input;
pub mod laws;
pub mod pattern;
pub mod rounds;
pub mod text;
pub mod wildcards;

verus! {

/// A position on a two-dimensional integer grid.
#[derive(Debug, Clone, PartialEq, Eq)]
pub struct Pos {
    pub x: isize,
    pub y: isize,
}

impl From<(isize, isize)> for Pos {
    fn from(f: (isize, isize)) -> (p: Pos) {
        Pos { x: f.0, y: f.1 }
    }
}

impl vstd::std_specs::convert::FromSpecImpl<(isize, isize)> for Pos {
    open spec fn obeys_from_spec() -> bool {
        true
    }

    open spec fn from_spec(f: (isize, isize)) -> Pos {
        Pos { x: f.0, y: f.1 }
    }
}

} // verus!
