//! Targets written as words, such as `split-rt` or `workspace-lw`.
//!
//! A word names the kind of target, followed by a dash and two letters: the
//! direction (`r`ight, `l`eft, `d`own, `u`p) and what to do at the edge
//! (`s`top, `w`rap, `t`raverse, `i`nactive). Anything after the two letters
//! is ignored.

use crate::algorithm::{EdgeMode, Kind, Target};
use crate::scan::{first_index, lemma_first_index_none, lemma_first_index_some};
use crate::text::has_prefix;
use vstd::prelude::*;
use vstd::string::*;

verus! {

/// The kind of target that a name stands for.
pub open spec fn kind_named(name: Seq<char>) -> Option<Kind> {
    if name == "split"@ {
        Some(Kind::Split)
    } else if name == "group"@ {
        Some(Kind::Group)
    } else if name == "float"@ {
        Some(Kind::Float)
    } else if name == "workspace"@ {
        Some(Kind::Workspace)
    } else if name == "output"@ {
        Some(Kind::Output)
    } else {
        None
    }
}

/// The direction that a letter stands for, as the pair of `backward` and
/// `vertical`.
pub open spec fn direction_of(c: char) -> Option<(bool, bool)> {
    if c == 'r' {
        Some((false, false))
    } else if c == 'l' {
        Some((true, false))
    } else if c == 'd' {
        Some((false, true))
    } else if c == 'u' {
        Some((true, true))
    } else {
        None
    }
}

/// The edge mode that a letter stands for.
pub open spec fn edge_mode_of(c: char) -> Option<EdgeMode> {
    if c == 's' {
        Some(EdgeMode::Stop)
    } else if c == 'w' {
        Some(EdgeMode::Wrap)
    } else if c == 't' {
        Some(EdgeMode::Traverse)
    } else if c == 'i' {
        Some(EdgeMode::Inactive)
    } else {
        None
    }
}

/// The predicate "is a dash".
pub open spec fn is_dash() -> spec_fn(char) -> bool {
    |c: char| c == '-'
}

/// The target that a word stands for. The name of the kind ends at the first
/// dash of the word.
pub open spec fn target_of(word: Seq<char>) -> Option<Target> {
    match first_index(word, is_dash()) {
        None => None,
        Some(i) => match kind_named(word.take(i)) {
            None => None,
            Some(kind) => if word.len() < i + 3 {
                None
            } else {
                match (direction_of(word[i + 1]), edge_mode_of(word[i + 2])) {
                    (Some((backward, vertical)), Some(edge_mode)) => Some(
                        Target { kind, backward, vertical, edge_mode },
                    ),
                    _ => None,
                }
            },
        },
    }
}

/// The targets that the arguments of a program stand for: one for each
/// argument after the first, which is the program's own name. There are none
/// unless at least one target is given and every word stands for one.
pub open spec fn targets_of(args: Seq<String>) -> Option<Seq<Target>> {
    if args.len() < 2 {
        None
    } else if forall|i: int| 1 <= i < args.len() ==> target_of((#[trigger] args[i])@) is Some {
        Some(Seq::new((args.len() - 1) as nat, |i: int| target_of(args[i + 1]@).unwrap()))
    } else {
        None
    }
}

/// Whether the first `n` characters of `s` are exactly `word`.
fn begins_with_word(s: &str, n: usize, word: &str) -> (r: bool)
    requires
        n <= s@.len(),
    ensures
        r == (s@.take(n as int) == word@),
{
    word.unicode_len() == n && has_prefix(s, word)
}

/// Executable form of [`kind_named`] on the first `n` characters of `s`.
fn parse_kind(s: &str, n: usize) -> (r: Option<Kind>)
    requires
        n <= s@.len(),
    ensures
        r == kind_named(s@.take(n as int)),
{
    if begins_with_word(s, n, "split") {
        Some(Kind::Split)
    } else if begins_with_word(s, n, "group") {
        Some(Kind::Group)
    } else if begins_with_word(s, n, "float") {
        Some(Kind::Float)
    } else if begins_with_word(s, n, "workspace") {
        Some(Kind::Workspace)
    } else if begins_with_word(s, n, "output") {
        Some(Kind::Output)
    } else {
        None
    }
}

/// Executable form of [`direction_of`].
fn parse_direction(c: char) -> (r: Option<(bool, bool)>)
    ensures
        r == direction_of(c),
{
    if c == 'r' {
        Some((false, false))
    } else if c == 'l' {
        Some((true, false))
    } else if c == 'd' {
        Some((false, true))
    } else if c == 'u' {
        Some((true, true))
    } else {
        None
    }
}

/// Executable form of [`edge_mode_of`].
fn parse_edge_mode(c: char) -> (r: Option<EdgeMode>)
    ensures
        r == edge_mode_of(c),
{
    if c == 's' {
        Some(EdgeMode::Stop)
    } else if c == 'w' {
        Some(EdgeMode::Wrap)
    } else if c == 't' {
        Some(EdgeMode::Traverse)
    } else if c == 'i' {
        Some(EdgeMode::Inactive)
    } else {
        None
    }
}

/// Reads one target.
pub fn parse_target(word: &str) -> (r: Option<Target>)
    ensures
        r == target_of(word@),
{
    let len: usize = word.unicode_len();
    let mut dash: usize = 0;
    while dash < len && word.get_char(dash) != '-'
        invariant
            dash <= len,
            len == word@.len(),
            forall|j: int| 0 <= j < dash ==> !is_dash()(#[trigger] word@[j]),
        decreases len - dash,
    {
        dash += 1;
    }
    if dash == len {
        proof {
            lemma_first_index_none(word@, is_dash());
        }
        return None;
    }
    proof {
        lemma_first_index_some(word@, is_dash(), dash as int);
    }
    let kind = match parse_kind(word, dash) {
        Some(kind) => kind,
        None => {
            return None;
        },
    };
    if len - dash < 3 {
        return None;
    }
    let direction = parse_direction(word.get_char(dash + 1));
    let edge = parse_edge_mode(word.get_char(dash + 2));
    match (direction, edge) {
        (Some((backward, vertical)), Some(edge_mode)) => Some(
            Target { kind, backward, vertical, edge_mode },
        ),
        _ => None,
    }
}

/// Reads the targets from the arguments of a program. The first argument is
/// the program's own name.
pub fn parse_args(args: &[String]) -> (r: Option<Vec<Target>>)
    ensures
        match r {
            Some(targets) => targets_of(args@) == Some(targets@),
            None => targets_of(args@) is None,
        },
{
    if args.len() < 2 {
        return None;
    }
    let mut targets: Vec<Target> = Vec::new();
    let mut i: usize = 1;
    while i < args.len()
        invariant
            1 <= i <= args.len(),
            targets.len() == i - 1,
            forall|j: int|
                1 <= j < i ==> target_of((#[trigger] args@[j])@) == Some(targets@[j - 1]),
        decreases args.len() - i,
    {
        match parse_target(args[i].as_str()) {
            Some(target) => {
                targets.push(target);
            },
            None => {
                return None;
            },
        }
        i += 1;
    }
    Some(targets)
}

} // verus!
