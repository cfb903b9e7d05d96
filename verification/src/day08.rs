//! Day 8: walks through a network of labelled nodes under a repeating list
//! of left/right commands; the length of the walk to a goal, and the least
//! common multiple of the cycle lengths of several walks.
use crate::pattern::{
    captures, groups_view, regex_accepts, regex_captures, string_of, Found, Group, Pattern,
};
use crate::text::{
    chars_of, lemma_split_nonempty, lines, lines_of, same, split, split_on, subvec, views,
};
use vstd::arithmetic::div_mod::{
    lemma_div_by_multiple, lemma_fundamental_div_mod, lemma_mod_multiples_basic,
};
use vstd::prelude::*;

verus! {

/// The greatest common divisor of `a` and `b`, by Euclid's algorithm; `a`
/// where `b` is 0.
pub open spec fn gcd(a: nat, b: nat) -> nat
    decreases b,
{
    if b == 0 {
        a
    } else {
        gcd(b, a % b)
    }
}

/// The least common multiple of `a` and `b`, as it is computed: `a` divided
/// by the greatest common divisor, times `b`.
pub open spec fn lcm_of(a: nat, b: nat) -> nat {
    (a / gcd(a, b)) * b
}

/// `gcd(a, b)` divides both `a` and `b`: the result holds the two quotients.
pub proof fn lemma_gcd_divides(a: nat, b: nat) -> (k: (nat, nat))
    ensures
        a == k.0 * gcd(a, b),
        b == k.1 * gcd(a, b),
        a > 0 || b > 0 ==> gcd(a, b) > 0,
    decreases b,
{
    if b == 0 {
        (1, 0)
    } else {
        let r = a % b;
        let k = lemma_gcd_divides(b, r);
        let g = gcd(b, r);
        lemma_fundamental_div_mod(a as int, b as int);
        let q = a / b;
        assert(a == (k.0 * q + k.1) * g) by (nonlinear_arith)
            requires
                a == b * q + r,
                b == k.0 * g,
                r == k.1 * g,
        ;
        ((k.0 * q + k.1) as nat, k.0)
    }
}

/// The least common multiple of two positive numbers is a multiple of each.
pub proof fn lemma_lcm_is_common_multiple(a: nat, b: nat)
    requires
        a > 0,
        b > 0,
    ensures
        lcm_of(a, b) % a == 0,
        lcm_of(a, b) % b == 0,
        lcm_of(a, b) > 0,
{
    let k = lemma_gcd_divides(a, b);
    let g = gcd(a, b);
    lemma_div_by_multiple(k.0 as int, g as int);
    assert(a / g == k.0);
    lemma_mod_multiples_basic(k.0 as int, b as int);
    assert(k.0 * b == k.1 * a) by (nonlinear_arith)
        requires
            a == k.0 * g,
            b == k.1 * g,
    ;
    lemma_mod_multiples_basic(k.1 as int, a as int);
    assert(k.0 > 0 && k.0 * b > 0) by (nonlinear_arith)
        requires
            a == k.0 * g,
            a > 0,
            b > 0,
    ;
}

/// A multiple of a multiple of `d` is a multiple of `d`.
pub proof fn lemma_multiple_of_multiple(n: nat, m: nat, d: nat)
    requires
        m > 0,
        d > 0,
        n % m == 0,
        m % d == 0,
    ensures
        n % d == 0,
{
    lemma_fundamental_div_mod(n as int, m as int);
    lemma_fundamental_div_mod(m as int, d as int);
    let a = n / m;
    let b = m / d;
    assert(n == (a * b) * d) by (nonlinear_arith)
        requires
            n == m * a,
            m == d * b,
    ;
    lemma_mod_multiples_basic((a * b) as int, d as int);
}

/// The greatest common divisor of `a` and `b`.
pub fn euclid(a: usize, b: usize) -> (g: usize)
    ensures
        g == gcd(a as nat, b as nat),
{
    let mut x = a;
    let mut y = b;
    while y > 0
        invariant
            gcd(x as nat, y as nat) == gcd(a as nat, b as nat),
        decreases y,
    {
        let t = y;
        y = x % y;
        x = t;
    }
    x
}

/// The least common multiple of `a` and `b`.
pub fn lcm(a: usize, b: usize) -> (m: usize)
    requires
        a > 0 || b > 0,
        lcm_of(a as nat, b as nat) <= usize::MAX,
    ensures
        m == lcm_of(a as nat, b as nat),
{
    proof {
        lemma_gcd_divides(a as nat, b as nat);
    }
    a / euclid(a, b) * b
}

/// The least common multiple of `a` and `b`, or `None` where both are 0 or
/// it does not fit `usize`.
pub fn checked_lcm(a: usize, b: usize) -> (m: Option<usize>)
    ensures
        m == if (a > 0 || b > 0) && lcm_of(a as nat, b as nat) <= usize::MAX {
            Some(lcm_of(a as nat, b as nat) as usize)
        } else {
            None
        },
{
    if a == 0 && b == 0 {
        return None;
    }
    proof {
        lemma_gcd_divides(a as nat, b as nat);
    }
    (a / euclid(a, b)).checked_mul(b)
}

/// A command: take the left or the right successor.
#[derive(Debug, Clone, Copy, PartialEq, Eq)]
pub enum Dir {
    L,
    R,
}

/// An entry of the network: a node's label and the labels of its left and
/// right successors.
#[derive(Debug, Clone, PartialEq, Eq)]
pub struct Node {
    pub name: Vec<char>,
    pub left: Vec<char>,
    pub right: Vec<char>,
}

/// The mathematical content of a [`Node`].
pub struct NodeView {
    pub name: Seq<char>,
    pub left: Seq<char>,
    pub right: Seq<char>,
}

impl View for Node {
    type V = NodeView;

    open spec fn view(&self) -> NodeView {
        NodeView { name: self.name@, left: self.left@, right: self.right@ }
    }
}

/// A network: its entries in the order written. Where a label has several
/// entries, the last one counts.
#[derive(Debug, Clone, PartialEq, Eq)]
pub struct Network {
    pub nodes: Vec<Node>,
}

impl View for Network {
    type V = Seq<NodeView>;

    open spec fn view(&self) -> Seq<NodeView> {
        self.nodes@.map_values(|n: Node| n@)
    }
}

/// The index of the entry of `nodes` that counts for the label `name`: the
/// last one with that label.
pub open spec fn entry_of(nodes: Seq<NodeView>, name: Seq<char>) -> Option<int>
    decreases nodes.len(),
{
    if nodes.len() == 0 {
        None
    } else if nodes.last().name == name {
        Some(nodes.len() - 1)
    } else {
        entry_of(nodes.drop_last(), name)
    }
}

/// The label that the command `dir` leads to from `loc`; `None` where `loc`
/// has no entry.
pub open spec fn next(nodes: Seq<NodeView>, loc: Seq<char>, dir: Dir) -> Option<Seq<char>> {
    match entry_of(nodes, loc) {
        Some(i) => Some(
            match dir {
                Dir::L => nodes[i].left,
                Dir::R => nodes[i].right,
            },
        ),
        None => None,
    }
}

/// The index of the command that follows the command of index `i`.
pub open spec fn following(commands: nat, i: int) -> int {
    if i + 1 == commands {
        0
    } else {
        i + 1
    }
}

/// The most steps that a walk is followed for: one round of commands more
/// than there are pairs of an entry and a command, or `usize::MAX` if that
/// is less.
pub open spec fn step_limit(entries: nat, commands: nat) -> nat {
    if entries * commands + commands <= usize::MAX {
        entries * commands + commands
    } else {
        usize::MAX as nat
    }
}

/// The number of steps after which a walk arrives at `ZZZ` for the first
/// time. The walk stands at `loc` after `n` steps, and the command of index
/// `i` is next. `None` where the walk meets a label without entry first, or
/// does not arrive within `limit` steps.
pub open spec fn arrival(
    nodes: Seq<NodeView>,
    dirs: Seq<Dir>,
    loc: Seq<char>,
    i: int,
    n: nat,
    limit: nat,
) -> Option<nat>
    decreases limit - n,
{
    if n >= limit || !(0 <= i < dirs.len()) {
        None
    } else {
        match next(nodes, loc, dirs[i]) {
            Some(to) => if to == "ZZZ"@ {
                Some(n + 1)
            } else {
                arrival(nodes, dirs, to, following(dirs.len(), i), n + 1, limit)
            },
            None => None,
        }
    }
}

/// The number of steps from `AAA` to the first arrival at `ZZZ`, where there
/// is one within the step limit.
pub open spec fn part_one_of(dirs: Seq<Dir>, nodes: Seq<NodeView>) -> Option<nat> {
    arrival(nodes, dirs, "AAA"@, 0, 0, step_limit(nodes.len(), dirs.len()))
}

impl Network {
    /// The index of the entry that counts for `name`.
    pub fn find(&self, name: &Vec<char>) -> (r: Option<usize>)
        ensures
            match r {
                Some(i) => entry_of(self@, name@) == Some(i as int) && i < self.nodes.len(),
                None => entry_of(self@, name@) is None,
            },
    {
        let mut i: usize = self.nodes.len();
        assert(self@.take(i as int) =~= self@);
        while i > 0
            invariant
                i <= self.nodes.len(),
                entry_of(self@, name@) == entry_of(self@.take(i as int), name@),
            decreases i,
        {
            proof {
                assert(self@.take(i as int).last() == self.nodes@[i - 1]@);
                assert(self@.take(i as int).drop_last() =~= self@.take(i - 1));
            }
            if same(&self.nodes[i - 1].name, name) {
                return Some(i - 1);
            }
            i -= 1;
        }
        None
    }

    /// The label that `dir` leads to from `loc`.
    pub fn step<'a>(&'a self, loc: &Vec<char>, dir: Dir) -> (r: Option<&'a Vec<char>>)
        ensures
            match r {
                Some(to) => next(self@, loc@, dir) == Some(to@),
                None => next(self@, loc@, dir) is None,
            },
    {
        match self.find(loc) {
            Some(i) => {
                assert(self@[i as int] == self.nodes@[i as int]@);
                Some(
                    match dir {
                        Dir::L => &self.nodes[i].left,
                        Dir::R => &self.nodes[i].right,
                    },
                )
            },
            None => None,
        }
    }

    /// The successors of the node labelled `name`, left and right.
    pub fn get(&self, name: &str) -> (r: Option<(String, String)>)
        ensures
            match r {
                Some(lr) => entry_of(self@, name@) matches Some(i) && lr.0@ == self@[i].left
                    && lr.1@ == self@[i].right,
                None => entry_of(self@, name@) is None,
            },
    {
        match self.find(&chars_of(name)) {
            Some(i) => {
                assert(self@[i as int] == self.nodes@[i as int]@);
                Some((string_of(&self.nodes[i].left), string_of(&self.nodes[i].right)))
            },
            None => None,
        }
    }
}

/// The step limit for a network of `entries` entries under `commands`
/// commands.
pub fn limit_for(entries: usize, commands: usize) -> (limit: usize)
    ensures
        limit == step_limit(entries as nat, commands as nat),
{
    match entries.checked_mul(commands) {
        Some(product) => match product.checked_add(commands) {
            Some(limit) => limit,
            None => usize::MAX,
        },
        None => {
            assert(entries * commands + commands > usize::MAX) by (nonlinear_arith)
                requires
                    entries * commands > usize::MAX,
                    commands >= 0,
            ;
            usize::MAX
        },
    }
}

/// The number of steps from `AAA` to the first arrival at `ZZZ`: `None`
/// where the walk meets a label without entry, there are no commands, or it
/// does not arrive within the step limit.
pub fn checked_part_one(dirs: &Vec<Dir>, map: &Network) -> (r: Option<usize>)
    ensures
        match r {
            Some(n) => part_one_of(dirs@, map@) == Some(n as nat),
            None => part_one_of(dirs@, map@) is None,
        },
{
    let limit = limit_for(map.nodes.len(), dirs.len());
    let start = chars_of("AAA");
    let goal = chars_of("ZZZ");
    let mut loc: &Vec<char> = &start;
    let mut i: usize = 0;
    let mut n: usize = 0;
    while n < limit && i < dirs.len()
        invariant
            n <= limit,
            i < dirs.len() || dirs.len() == 0,
            goal@ == "ZZZ"@,
            limit == step_limit(map@.len(), dirs@.len()),
            part_one_of(dirs@, map@) == arrival(map@, dirs@, loc@, i as int, n as nat, limit as nat),
        decreases limit - n,
    {
        match map.step(loc, dirs[i]) {
            Some(to) => {
                if same(to, &goal) {
                    return Some(n + 1);
                }
                loc = to;
            },
            None => {
                return None;
            },
        }
        i = if i + 1 == dirs.len() {
            0
        } else {
            i + 1
        };
        n += 1;
    }
    None
}

/// The number of steps from `AAA` to the first arrival at `ZZZ`.
pub fn part_one(dirs: &Vec<Dir>, map: &Network) -> (n: usize)
    requires
        part_one_of(dirs@, map@) is Some,
    ensures
        part_one_of(dirs@, map@) == Some(n as nat),
{
    checked_part_one(dirs, map).unwrap()
}

/// The least index at or after `from` at which `visited` holds `state`.
pub open spec fn position_from(
    visited: Seq<(Seq<char>, int)>,
    state: (Seq<char>, int),
    from: int,
) -> Option<int>
    decreases visited.len() - from,
{
    if from < 0 || from >= visited.len() {
        None
    } else if visited[from] == state {
        Some(from)
    } else {
        position_from(visited, state, from + 1)
    }
}

/// A position found lies at or after `from` and within `visited`.
pub proof fn lemma_position_from_bounds(
    visited: Seq<(Seq<char>, int)>,
    state: (Seq<char>, int),
    from: int,
)
    requires
        0 <= from,
    ensures
        position_from(visited, state, from) matches Some(p) ==> from <= p < visited.len(),
    decreases visited.len() - from,
{
    if from < visited.len() && visited[from] != state {
        lemma_position_from_bounds(visited, state, from + 1);
    }
}

/// The first return of a walk to a state it was in before. A state is a
/// label together with the index of the command that is next there;
/// `visited` holds the states before each of the `n` steps so far, the walk
/// stands at `loc`, and the command of index `i` is next. After each step
/// the new state is looked up among the visited ones. The result is the
/// number of steps taken and the index of the earliest visit in that state.
/// `None` where the walk meets a label without entry first, or no return is
/// seen within `limit` steps.
pub open spec fn cycle(
    nodes: Seq<NodeView>,
    dirs: Seq<Dir>,
    visited: Seq<(Seq<char>, int)>,
    loc: Seq<char>,
    i: int,
    n: nat,
    limit: nat,
) -> Option<(nat, nat)>
    decreases limit - n,
{
    if n >= limit || !(0 <= i < dirs.len()) {
        None
    } else {
        let seen = visited.push((loc, i));
        match next(nodes, loc, dirs[i]) {
            Some(to) => match position_from(seen, (to, following(dirs.len(), i)), 0) {
                Some(p) => Some((n + 1, p as nat)),
                None => cycle(nodes, dirs, seen, to, following(dirs.len(), i), n + 1, limit),
            },
            None => None,
        }
    }
}

/// The length of the cycle that the walk from `start` runs into: the steps
/// taken up to its first return to an earlier state, less the steps taken up
/// to that state.
pub open spec fn cycle_length(nodes: Seq<NodeView>, dirs: Seq<Dir>, start: Seq<char>) -> Option<
    usize,
> {
    match cycle(nodes, dirs, Seq::empty(), start, 0, 0, step_limit(nodes.len(), dirs.len())) {
        Some((n, p)) => Some((n - p) as usize),
        None => None,
    }
}

/// A return is seen after at least one step and within the limit, and the
/// earlier visit lies before it.
pub proof fn lemma_cycle_bounds(
    nodes: Seq<NodeView>,
    dirs: Seq<Dir>,
    visited: Seq<(Seq<char>, int)>,
    loc: Seq<char>,
    i: int,
    n: nat,
    limit: nat,
)
    requires
        visited.len() == n,
    ensures
        cycle(nodes, dirs, visited, loc, i, n, limit) matches Some((steps, p)) ==> p < steps
            <= limit,
    decreases limit - n,
{
    if n < limit && 0 <= i < dirs.len() {
        let seen = visited.push((loc, i));
        match next(nodes, loc, dirs[i]) {
            Some(to) => {
                lemma_position_from_bounds(seen, (to, following(dirs.len(), i)), 0);
                if position_from(seen, (to, following(dirs.len(), i)), 0) is None {
                    lemma_cycle_bounds(
                        nodes,
                        dirs,
                        seen,
                        to,
                        following(dirs.len(), i),
                        n + 1,
                        limit,
                    );
                }
            },
            None => {},
        }
    }
}

/// Whether the walk starts at the entry `node`: at one whose label has `A`
/// as its third character. `None` for a label of fewer than three
/// characters.
pub open spec fn is_start(node: NodeView) -> Option<bool> {
    if node.name.len() >= 3 {
        Some(node.name[2] == 'A')
    } else {
        None
    }
}

/// The cycle lengths of the walks from the starts among the first `k`
/// entries, in order. `None` where one of these entries has a label too
/// short, or the walk from one of these starts has no cycle length.
pub open spec fn cycles_upto(nodes: Seq<NodeView>, dirs: Seq<Dir>, k: int) -> Option<Seq<usize>>
    decreases k,
{
    if k <= 0 {
        Some(Seq::empty())
    } else {
        match (cycles_upto(nodes, dirs, k - 1), is_start(nodes[k - 1])) {
            (Some(before), Some(true)) => match cycle_length(nodes, dirs, nodes[k - 1].name) {
                Some(m) => Some(before.push(m)),
                None => None,
            },
            (Some(before), Some(false)) => Some(before),
            _ => None,
        }
    }
}

/// The least common multiple of two numbers, where it is defined and fits
/// `usize`.
pub open spec fn checked_lcm_of(a: usize, b: usize) -> Option<usize> {
    if (a > 0 || b > 0) && lcm_of(a as nat, b as nat) <= usize::MAX {
        Some(lcm_of(a as nat, b as nat) as usize)
    } else {
        None
    }
}

/// The first of `cycles` combined with the first `k` of them, one after the
/// other, by least common multiple. `None` where there are no cycles or a
/// step is not defined.
pub open spec fn combined_upto(cycles: Seq<usize>, k: int) -> Option<usize>
    decreases k,
{
    if k <= 0 {
        if cycles.len() > 0 {
            Some(cycles[0])
        } else {
            None
        }
    } else {
        match combined_upto(cycles, k - 1) {
            Some(acc) => checked_lcm_of(acc, cycles[k - 1]),
            None => None,
        }
    }
}

/// The combined cycle length of the walks from all starts, where it is
/// defined.
pub open spec fn part_two_of(dirs: Seq<Dir>, nodes: Seq<NodeView>) -> Option<usize> {
    match cycles_upto(nodes, dirs, nodes.len() as int) {
        Some(cycles) => combined_upto(cycles, cycles.len() as int),
        None => None,
    }
}

/// The combined length is a multiple of each of the cycle lengths that went
/// into it.
pub proof fn lemma_combined_is_multiple(cycles: Seq<usize>, k: int)
    requires
        0 <= k <= cycles.len(),
        forall|j: int| 0 <= j < cycles.len() ==> cycles[j] > 0,
        combined_upto(cycles, k) is Some,
    ensures
        combined_upto(cycles, k)->0 > 0,
        combined_upto(cycles, k)->0 % cycles[0] == 0,
        forall|j: int| 0 <= j < k ==> combined_upto(cycles, k)->0 % (#[trigger] cycles[j]) == 0,
    decreases k,
{
    if k <= 0 {
        vstd::arithmetic::div_mod::lemma_mod_self_0(cycles[0] as int);
    } else {
        lemma_combined_is_multiple(cycles, k - 1);
        let acc = combined_upto(cycles, k - 1)->0;
        let r = combined_upto(cycles, k)->0;
        lemma_lcm_is_common_multiple(acc as nat, cycles[k - 1] as nat);
        lemma_multiple_of_multiple(r as nat, acc as nat, cycles[0] as nat);
        assert forall|j: int| 0 <= j < k implies r % (#[trigger] cycles[j]) == 0 by {
            if j < k - 1 {
                lemma_multiple_of_multiple(r as nat, acc as nat, cycles[j] as nat);
            }
        }
    }
}

/// Every cycle length is positive.
pub proof fn lemma_cycles_positive(nodes: Seq<NodeView>, dirs: Seq<Dir>, k: int)
    requires
        0 <= k <= nodes.len(),
        cycles_upto(nodes, dirs, k) is Some,
    ensures
        forall|j: int|
            0 <= j < cycles_upto(nodes, dirs, k)->0.len() ==> (#[trigger] cycles_upto(
                nodes,
                dirs,
                k,
            )->0[j]) > 0,
    decreases k,
{
    if k > 0 {
        lemma_cycles_positive(nodes, dirs, k - 1);
        if is_start(nodes[k - 1]) == Some(true) {
            lemma_cycle_bounds(
                nodes,
                dirs,
                Seq::empty(),
                nodes[k - 1].name,
                0,
                0,
                step_limit(nodes.len(), dirs.len()),
            );
        }
    }
}

/// The combined cycle length is divisible by the cycle length of the walk
/// from each start.
pub proof fn lemma_part_two_divisible(dirs: Seq<Dir>, nodes: Seq<NodeView>)
    requires
        part_two_of(dirs, nodes) is Some,
    ensures
        forall|j: int|
            0 <= j < cycles_upto(nodes, dirs, nodes.len() as int)->0.len() ==> part_two_of(
                dirs,
                nodes,
            )->0 % (#[trigger] cycles_upto(nodes, dirs, nodes.len() as int)->0[j]) == 0,
{
    let cycles = cycles_upto(nodes, dirs, nodes.len() as int)->0;
    lemma_cycles_positive(nodes, dirs, nodes.len() as int);
    lemma_combined_is_multiple(cycles, cycles.len() as int);
}

/// The index at which `visited` first holds the label `to` under the
/// command index `i`.
fn position(visited: &Vec<(&Vec<char>, usize)>, to: &Vec<char>, i: usize) -> (r: Option<usize>)
    ensures
        match r {
            Some(p) => position_from(states(visited@), (to@, i as int), 0) == Some(p as int),
            None => position_from(states(visited@), (to@, i as int), 0) is None,
        },
{
    let mut k: usize = 0;
    while k < visited.len()
        invariant
            k <= visited.len(),
            position_from(states(visited@), (to@, i as int), 0) == position_from(
                states(visited@),
                (to@, i as int),
                k as int,
            ),
        decreases visited.len() - k,
    {
        assert(states(visited@)[k as int] == (visited@[k as int].0@, visited@[k as int].1 as int));
        if visited[k].1 == i && same(visited[k].0, to) {
            return Some(k);
        }
        k += 1;
    }
    None
}

/// The states that a vector of visited labels and command indices holds.
pub open spec fn states(visited: Seq<(&Vec<char>, usize)>) -> Seq<(Seq<char>, int)> {
    visited.map_values(|v: (&Vec<char>, usize)| (v.0@, v.1 as int))
}

/// The cycle length of the walk from `start`: `None` where the walk meets a
/// label without entry, there are no commands, or no return is seen within
/// the step limit.
pub fn find_cycle(dirs: &Vec<Dir>, map: &Network, start: &Vec<char>) -> (r: Option<usize>)
    ensures
        r == cycle_length(map@, dirs@, start@),
        r matches Some(m) ==> m > 0,
{
    let limit = limit_for(map.nodes.len(), dirs.len());
    let mut visited: Vec<(&Vec<char>, usize)> = Vec::new();
    let mut loc: &Vec<char> = start;
    let mut i: usize = 0;
    let mut n: usize = 0;
    proof {
        assert(states(visited@) =~= Seq::empty());
        lemma_cycle_bounds(map@, dirs@, Seq::empty(), start@, 0, 0, limit as nat);
    }
    while n < limit && i < dirs.len()
        invariant
            n <= limit,
            i < dirs.len() || dirs.len() == 0,
            visited.len() == n,
            limit == step_limit(map@.len(), dirs@.len()),
            cycle(map@, dirs@, Seq::empty(), start@, 0, 0, limit as nat) == cycle(
                map@,
                dirs@,
                states(visited@),
                loc@,
                i as int,
                n as nat,
                limit as nat,
            ),
        decreases limit - n,
    {
        let ghost before = states(visited@);
        visited.push((loc, i));
        assert(states(visited@) =~= before.push((loc@, i as int)));
        let then = if i + 1 == dirs.len() {
            0
        } else {
            i + 1
        };
        match map.step(loc, dirs[i]) {
            Some(to) => {
                match position(&visited, to, then) {
                    Some(p) => {
                        proof {
                            lemma_position_from_bounds(states(visited@), (to@, then as int), 0);
                        }
                        return Some(n + 1 - p);
                    },
                    None => {},
                }
                loc = to;
            },
            None => {
                return None;
            },
        }
        i = then;
        n += 1;
    }
    None
}

/// Combines cycle lengths by least common multiple.
pub fn combine(cycles: &Vec<usize>) -> (r: Option<usize>)
    ensures
        r == combined_upto(cycles@, cycles.len() as int),
{
    if cycles.len() == 0 {
        return None;
    }
    let mut acc: Option<usize> = Some(cycles[0]);
    let mut k: usize = 0;
    while k < cycles.len()
        invariant
            k <= cycles.len(),
            cycles.len() > 0,
            acc == combined_upto(cycles@, k as int),
        decreases cycles.len() - k,
    {
        acc =
        match acc {
            Some(a) => checked_lcm(a, cycles[k]),
            None => None,
        };
        k += 1;
    }
    acc
}

/// The combined cycle length of the walks from all starts: the least common
/// multiple of their cycle lengths. `None` where there is no start, a label
/// is shorter than three characters, a walk has no cycle length, or the
/// result does not fit `usize`.
pub fn checked_part_two_way2(dirs: &Vec<Dir>, map: &Network) -> (r: Option<usize>)
    ensures
        r == part_two_of(dirs@, map@),
{
    let mut cycles: Vec<usize> = Vec::new();
    let mut ok = true;
    let mut k: usize = 0;
    while k < map.nodes.len()
        invariant
            k <= map.nodes.len(),
            ok ==> cycles_upto(map@, dirs@, k as int) == Some(cycles@),
            !ok ==> cycles_upto(map@, dirs@, k as int) is None,
        decreases map.nodes.len() - k,
    {
        if ok {
            let name = &map.nodes[k].name;
            assert(map@[k as int] == map.nodes@[k as int]@);
            if name.len() < 3 {
                ok = false;
            } else if name[2] == 'A' {
                match find_cycle(dirs, map, name) {
                    Some(m) => {
                        cycles.push(m);
                    },
                    None => {
                        ok = false;
                    },
                }
            }
        }
        k += 1;
    }
    if ok {
        combine(&cycles)
    } else {
        None
    }
}

/// The combined cycle length of the walks from all starts. It is divisible
/// by the cycle length of each of these walks.
pub fn part_two_way2(dirs: &Vec<Dir>, map: &Network) -> (n: usize)
    requires
        part_two_of(dirs@, map@) is Some,
    ensures
        part_two_of(dirs@, map@) == Some(n),
        forall|j: int|
            0 <= j < cycles_upto(map@, dirs@, map@.len() as int)->0.len() ==> n % (
            #[trigger] cycles_upto(map@, dirs@, map@.len() as int)->0[j]) == 0,
{
    proof {
        lemma_part_two_divisible(dirs@, map@);
    }
    checked_part_two_way2(dirs, map).unwrap()
}

/// The pattern of a line of the network: a label, and in brackets the labels
/// of its left and right successors.
pub const NODE_PATTERN: &'static str =
    r"(?<from>[A-Z1-9]{3}) = \((?<left>[A-Z1-9]{3}), (?<right>[A-Z1-9]{3})\)";

/// The command that a character writes.
pub open spec fn dir_of(c: char) -> Option<Dir> {
    if c == 'R' {
        Some(Dir::R)
    } else if c == 'L' {
        Some(Dir::L)
    } else {
        None
    }
}

/// The commands that `s` writes, if every character of it writes one.
pub open spec fn dirs_of(s: Seq<char>) -> Option<Seq<Dir>> {
    if forall|i: int| 0 <= i < s.len() ==> dir_of(#[trigger] s[i]) is Some {
        Some(Seq::new(s.len(), |i: int| dir_of(s[i])->0))
    } else {
        None
    }
}

/// The entry that the groups of a match write: the texts of the groups 1, 2
/// and 3 as label, left and right successor.
pub open spec fn node_of(groups: Seq<Option<Found>>) -> Option<NodeView> {
    if groups.len() > 3 && groups[1] is Some && groups[2] is Some && groups[3] is Some {
        Some(NodeView { name: groups[1]->0.text, left: groups[2]->0.text, right: groups[3]->0.text })
    } else {
        None
    }
}

/// The entry that a line writes, as the accepted pattern finds it: that of
/// its first match. `None` where the pattern does not match.
pub open spec fn line_node(line: Seq<char>) -> Option<NodeView> {
    match regex_captures(NODE_PATTERN@, line) {
        Some(groups) => node_of(groups),
        None => None,
    }
}

/// The network that a segment of the text writes, one entry per line;
/// `None` where the pattern is not accepted or a line writes no entry.
pub open spec fn nodes_of(segment: Seq<char>) -> Option<Seq<NodeView>> {
    let ls = lines_of(segment);
    if regex_accepts(NODE_PATTERN@) && forall|i: int|
        0 <= i < ls.len() ==> line_node(#[trigger] ls[i]) is Some {
        Some(Seq::new(ls.len(), |i: int| line_node(ls[i])->0))
    } else {
        None
    }
}

/// The commands and the network that a text writes: its segments are
/// separated by empty lines, the first holds the commands and the second the
/// network.
pub open spec fn parse_of(input: Seq<char>) -> Option<(Seq<Dir>, Seq<NodeView>)> {
    let segments = split(input, "\n\n"@);
    match dirs_of(segments[0]) {
        Some(dirs) => if segments.len() >= 2 {
            match nodes_of(segments[1]) {
                Some(nodes) => Some((dirs, nodes)),
                None => None,
            }
        } else {
            None
        },
        None => None,
    }
}

/// Reads the commands.
pub fn dirs_from(s: &Vec<char>) -> (r: Option<Vec<Dir>>)
    ensures
        match r {
            Some(dirs) => dirs_of(s@) == Some(dirs@),
            None => dirs_of(s@) is None,
        },
{
    let mut dirs: Vec<Dir> = Vec::new();
    let mut i: usize = 0;
    while i < s.len()
        invariant
            i <= s.len(),
            dirs.len() == i,
            forall|j: int| 0 <= j < i ==> dir_of(#[trigger] s@[j]) == Some(dirs@[j]),
        decreases s.len() - i,
    {
        if s[i] == 'R' {
            dirs.push(Dir::R);
        } else if s[i] == 'L' {
            dirs.push(Dir::L);
        } else {
            assert(dir_of(s@[i as int]) is None);
            return None;
        }
        i += 1;
    }
    assert(dirs@ =~= Seq::new(s@.len(), |i: int| dir_of(s@[i])->0));
    Some(dirs)
}

/// Reads an entry from the groups of a match.
pub fn node_from(groups: &Vec<Option<Group>>) -> (r: Option<Node>)
    ensures
        match r {
            Some(node) => node_of(groups_view(groups@)) == Some(node@),
            None => node_of(groups_view(groups@)) is None,
        },
{
    if groups.len() <= 3 {
        return None;
    }
    proof {
        assert(groups_view(groups@)[1] == match groups@[1] {
            Some(g) => Some(g@),
            None => None,
        });
        assert(groups_view(groups@)[2] == match groups@[2] {
            Some(g) => Some(g@),
            None => None,
        });
        assert(groups_view(groups@)[3] == match groups@[3] {
            Some(g) => Some(g@),
            None => None,
        });
    }
    match (&groups[1], &groups[2], &groups[3]) {
        (Some(from), Some(left), Some(right)) => {
            let node = Node {
                name: subvec(&from.text, 0, from.text.len()),
                left: subvec(&left.text, 0, left.text.len()),
                right: subvec(&right.text, 0, right.text.len()),
            };
            assert(node.name@ =~= from.text@);
            assert(node.left@ =~= left.text@);
            assert(node.right@ =~= right.text@);
            Some(node)
        },
        _ => None,
    }
}

fn nodes_from(segment: &Vec<char>) -> (r: Option<Network>)
    ensures
        match r {
            Some(net) => nodes_of(segment@) == Some(net@),
            None => nodes_of(segment@) is None,
        },
{
    let pattern = match Pattern::new(NODE_PATTERN) {
        Some(p) => p,
        None => {
            return None;
        },
    };
    let ls = lines(segment);
    let mut nodes: Vec<Node> = Vec::new();
    let mut i: usize = 0;
    while i < ls.len()
        invariant
            i <= ls.len(),
            pattern@ == NODE_PATTERN@,
            regex_accepts(NODE_PATTERN@),
            views(ls@) == lines_of(segment@),
            nodes.len() == i,
            forall|j: int| 0 <= j < i ==> line_node(#[trigger] views(ls@)[j]) == Some(nodes@[j]@),
        decreases ls.len() - i,
    {
        assert(views(ls@)[i as int] == ls@[i as int]@);
        let line = string_of(&ls[i]);
        let node = match captures(&pattern, line.as_str()) {
            Some(groups) => node_from(&groups),
            None => None,
        };
        match node {
            Some(node) => {
                nodes.push(node);
            },
            None => {
                assert(line_node(lines_of(segment@)[i as int]) is None);
                return None;
            },
        }
        i += 1;
    }
    let net = Network { nodes };
    proof {
        let all = lines_of(segment@);
        assert forall|j: int| 0 <= j < all.len() implies line_node(#[trigger] all[j]) is Some by {
            assert(line_node(views(ls@)[j]) is Some);
        }
        assert forall|j: int| 0 <= j < net@.len() implies net@[j] == line_node(all[j])->0 by {
            assert(line_node(views(ls@)[j]) == Some(net.nodes@[j]@));
        }
        assert(net@ =~= Seq::new(all.len(), |i: int| line_node(all[i])->0));
    }
    Some(net)
}

fn try_parse(input: &str) -> (r: Option<(Vec<Dir>, Network)>)
    ensures
        match r {
            Some((dirs, map)) => parse_of(input@) == Some((dirs@, map@)),
            None => parse_of(input@) is None,
        },
{
    proof {
        reveal_strlit("\n\n");
        lemma_split_nonempty(input@, "\n\n"@);
    }
    let segments = split_on(&chars_of(input), &chars_of("\n\n"));
    assert(views(segments@)[0] == segments@[0]@);
    let dirs = match dirs_from(&segments[0]) {
        Some(dirs) => dirs,
        None => {
            return None;
        },
    };
    if segments.len() < 2 {
        return None;
    }
    assert(views(segments@)[1] == segments@[1]@);
    match nodes_from(&segments[1]) {
        Some(map) => Some((dirs, map)),
        None => None,
    }
}

/// Reads the commands and the network.
pub fn parse(input: &str) -> (r: (Vec<Dir>, Network))
    requires
        parse_of(input@) is Some,
    ensures
        parse_of(input@) == Some((r.0@, r.1@)),
{
    try_parse(input).unwrap()
}

/// Reads the commands and the network, where the text writes them. What
/// the pattern finds can only be learnt by searching, so the searches are
/// made and looked at first, and [`parse`] is called only where every line
/// writes an entry. `None` where a character of the first segment is no
/// command, there is no second segment, the pattern is not accepted, or a
/// line of the second segment does not match it.
pub fn checked_parse(input: &str) -> (r: Option<(Vec<Dir>, Network)>)
    ensures
        match r {
            Some((dirs, map)) => parse_of(input@) == Some((dirs@, map@)),
            None => parse_of(input@) is None,
        },
{
    if try_parse(input).is_some() {
        Some(parse(input))
    } else {
        None
    }
}

} // verus!
