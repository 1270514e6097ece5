//! The values of the command line: depths, switches, thread counts, the
//! table builder, the agent and where a ruleset's table is kept.
use crate::category::{Category, Ruleset, category_for_normalized};
use crate::table_build::AnchorBuildStrategy;
use crate::text::{bytes_eq, message, normalize_spec, parse_bounded, parse_bounded_spec, push_str, split_bytes, split_spec, text_from_bytes};
use crate::{fault_matches, quoted, KeiriError, ParseFault};
use vstd::prelude::*;
use vstd::string::StringSliceAdditionalSpecFns;

verus! {

/// Whether `s` is the text of one of the literals.
pub open spec fn is_one_of(s: Seq<u8>, a: &str, b: &str, c: &str) -> bool {
    s == a.spec_bytes() || s == b.spec_bytes() || s == c.spec_bytes()
}

/// A category given by name, or a `ParseError` for an unknown name.
pub fn parse_category(input: &str) -> (r: Result<Category, KeiriError>)
    ensures
        match category_for_normalized(normalize_spec(input.spec_bytes())) {
            Some(c) => r == Ok::<Category, KeiriError>(c),
            None => r is Err && fault_matches(
                r->Err_0,
                ParseFault::Syntax(quoted("unknown category `"@, input.spec_bytes(), "`"@)),
            ),
        },
{
    match Category::from_name(input) {
        Some(c) => Ok(c),
        None => Err(KeiriError::ParseError(message("unknown category `", input.as_bytes(), "`"))),
    }
}

/// The depths read from the comma-separated `parts`: each a number from 1
/// to 3, kept the first time it occurs.
pub open spec fn depths_spec(parts: Seq<Seq<u8>>) -> Result<Seq<u8>, ParseFault>
    decreases parts.len(),
{
    if parts.len() == 0 {
        Ok(Seq::empty())
    } else {
        match depths_spec(parts.drop_last()) {
            Err(f) => Err(f),
            Ok(acc) => match parse_bounded_spec(parts.last(), 255) {
                None => Err(ParseFault::Syntax(quoted("invalid depth `"@, parts.last(), "`"@))),
                Some(d) => if d < 1 || d > 3 {
                    Err(ParseFault::RollCount(d as u8))
                } else if acc.contains(d as u8) {
                    Ok(acc)
                } else {
                    Ok(acc.push(d as u8))
                },
            },
        }
    }
}

proof fn lemma_depths_error_stays(ps: Seq<Seq<u8>>, k: int)
    requires
        0 <= k <= ps.len(),
        depths_spec(ps.take(k)) is Err,
    ensures
        depths_spec(ps) == depths_spec(ps.take(k)),
    decreases ps.len() - k,
{
    if k < ps.len() {
        assert(ps.take(k + 1).drop_last() == ps.take(k));
        lemma_depths_error_stays(ps, k + 1);
    } else {
        assert(ps.take(k) == ps);
    }
}

/// Reroll depths from a list such as `1,3`: each from 1 to 3, duplicates
/// dropped, first occurrences in order.  A piece that is no number gives a
/// `ParseError`, a number outside 1 to 3 an `InvalidRollCount`, an empty
/// list a `ParseError`.
pub fn parse_depths(input: &str) -> (r: Result<Vec<u8>, KeiriError>)
    ensures
        match depths_spec(split_spec(input.spec_bytes(), 44u8)) {
            Ok(v) => if v.len() == 0 {
                r is Err && fault_matches(r->Err_0, ParseFault::Syntax("depths must include at least one value"@))
            } else {
                r is Ok && r->Ok_0@ == v
            },
            Err(f) => r is Err && fault_matches(r->Err_0, f),
        },
{
    let parts = split_bytes(input.as_bytes(), 44u8);
    let ghost ps = split_spec(input.spec_bytes(), 44u8);
    let mut depths: Vec<u8> = Vec::new();
    let mut i: usize = 0;
    while i < parts.len()
        invariant
            i <= parts@.len(),
            ps == split_spec(input.spec_bytes(), 44u8),
            parts@.len() == ps.len(),
            forall|k: int| 0 <= k < parts@.len() ==> (#[trigger] parts@[k])@ == ps[k],
            depths_spec(ps.take(i as int)) == Ok::<Seq<u8>, ParseFault>(depths@),
        decreases parts@.len() - i,
    {
        assert(ps.take(i as int + 1).drop_last() == ps.take(i as int));
        assert(ps.take(i as int + 1).last() == ps[i as int]);
        let part = parts[i].as_slice();
        let depth = match parse_bounded(part, 255) {
            Some(d) => d as u8,
            None => {
                proof {
                    assert(part@ == ps[i as int]);
                    assert(parse_bounded_spec(ps.take(i as int + 1).last(), 255) is None);
                    assert(depths_spec(ps.take(i as int + 1)) == Err::<Seq<u8>, ParseFault>(
                        ParseFault::Syntax(quoted("invalid depth `"@, part@, "`"@)),
                    ));
                    lemma_depths_error_stays(ps, i as int + 1);
                }
                return Err(KeiriError::ParseError(message("invalid depth `", part, "`")));
            },
        };
        if depth < 1 || depth > 3 {
            proof {
                assert(depths_spec(ps.take(i as int + 1)) == Err::<Seq<u8>, ParseFault>(ParseFault::RollCount(depth)));
                lemma_depths_error_stays(ps, i as int + 1);
            }
            return Err(KeiriError::InvalidRollCount(depth));
        }
        let mut seen = false;
        let mut j: usize = 0;
        while j < depths.len()
            invariant
                j <= depths@.len(),
                seen == exists|k: int| 0 <= k < j && depths@[k] == depth,
            decreases depths@.len() - j,
        {
            if depths[j] == depth {
                seen = true;
            }
            j += 1;
        }
        assert(seen == depths@.contains(depth));
        if !seen {
            depths.push(depth);
        }
        i += 1;
    }
    assert(ps.take(ps.len() as int) == ps);
    if depths.len() == 0 {
        return Err(KeiriError::ParseError(String::from_str("depths must include at least one value")));
    }
    Ok(depths)
}

/// The switch value a word stands for: `true`, `1` and `yes` for on,
/// `false`, `0` and `no` for off.
pub open spec fn switch_for(s: Seq<u8>) -> Option<bool> {
    if is_one_of(s, "true", "1", "yes") {
        Some(true)
    } else if is_one_of(s, "false", "0", "no") {
        Some(false)
    } else {
        None
    }
}

/// A switch given as `true`, `1` or `yes`, or as `false`, `0` or `no`; a
/// `ParseError` naming the option `name` otherwise.
pub fn parse_bool_option(name: &str, value: &str) -> (r: Result<bool, KeiriError>)
    ensures
        match switch_for(value.spec_bytes()) {
            Some(b) => r == Ok::<bool, KeiriError>(b),
            None => r is Err && fault_matches(
                r->Err_0,
                ParseFault::Syntax("invalid "@ + name@ + quoted(" boolean `"@, value.spec_bytes(), "`"@)),
            ),
        },
{
    let v = value.as_bytes();
    if bytes_eq(v, "true".as_bytes()) || bytes_eq(v, "1".as_bytes()) || bytes_eq(v, "yes".as_bytes()) {
        Ok(true)
    } else if bytes_eq(v, "false".as_bytes()) || bytes_eq(v, "0".as_bytes()) || bytes_eq(v, "no".as_bytes()) {
        Ok(false)
    } else {
        let mut msg = String::new();
        push_str(&mut msg, "invalid ");
        push_str(&mut msg, name);
        push_str(&mut msg, " boolean `");
        let shown = text_from_bytes(v);
        push_str(&mut msg, shown.as_str());
        push_str(&mut msg, "`");
        assert(msg@ =~= "invalid "@ + name@ + quoted(" boolean `"@, value.spec_bytes(), "`"@));
        Err(KeiriError::ParseError(msg))
    }
}

/// A thread count: `auto` for as many as the machine offers, or a positive
/// number; a `ParseError` otherwise.
pub fn parse_threads(value: &str) -> (r: Result<Option<usize>, KeiriError>)
    ensures
        value.spec_bytes() == "auto".spec_bytes() ==> r == Ok::<Option<usize>, KeiriError>(None),
        value.spec_bytes() != "auto".spec_bytes() ==> match parse_bounded_spec(value.spec_bytes(), usize::MAX as nat) {
            Some(n) => if n == 0 {
                r is Err && fault_matches(
                    r->Err_0,
                    ParseFault::Syntax("threads must be `auto` or a positive integer"@),
                )
            } else {
                r == Ok::<Option<usize>, KeiriError>(Some(n as usize))
            },
            None => r is Err && fault_matches(
                r->Err_0,
                ParseFault::Syntax(quoted("invalid threads `"@, value.spec_bytes(), "`"@)),
            ),
        },
{
    let v = value.as_bytes();
    if bytes_eq(v, "auto".as_bytes()) {
        return Ok(None);
    }
    let threads = match parse_bounded(v, usize::MAX as u64) {
        Some(n) => n as usize,
        None => return Err(KeiriError::ParseError(message("invalid threads `", v, "`"))),
    };
    if threads == 0 {
        return Err(KeiriError::ParseError(String::from_str("threads must be `auto` or a positive integer")));
    }
    Ok(Some(threads))
}

/// The table builder a word names: `dense` or `recursive`.
pub open spec fn builder_for(s: Seq<u8>) -> Option<AnchorBuildStrategy> {
    if s == "dense".spec_bytes() {
        Some(AnchorBuildStrategy::Dense)
    } else if s == "recursive".spec_bytes() {
        Some(AnchorBuildStrategy::Recursive)
    } else {
        None
    }
}

/// The table builder named `dense` or `recursive`; a `ParseError` otherwise.
pub fn parse_anchor_builder(value: &str) -> (r: Result<AnchorBuildStrategy, KeiriError>)
    ensures
        match builder_for(value.spec_bytes()) {
            Some(b) => r == Ok::<AnchorBuildStrategy, KeiriError>(b),
            None => r is Err && fault_matches(
                r->Err_0,
                ParseFault::Syntax(quoted("unknown anchor table builder `"@, value.spec_bytes(), "`"@)),
            ),
        },
{
    let v = value.as_bytes();
    if bytes_eq(v, "dense".as_bytes()) {
        Ok(AnchorBuildStrategy::Dense)
    } else if bytes_eq(v, "recursive".as_bytes()) {
        Ok(AnchorBuildStrategy::Recursive)
    } else {
        Err(KeiriError::ParseError(message("unknown anchor table builder `", v, "`")))
    }
}

/// The agent that plays or advises.
#[derive(Debug, Clone, Copy, PartialEq, Eq, Structural)]
pub enum CliAgent {
    Auto,
    ExactTable,
    Hybrid,
    Heuristic,
}

impl CliAgent {
    /// The name of the agent on the command line.
    pub fn as_cli_value(self) -> (r: &'static str)
        ensures
            r@ == match self {
                CliAgent::Auto => "auto"@,
                CliAgent::ExactTable => "exact-table"@,
                CliAgent::Hybrid => "hybrid"@,
                CliAgent::Heuristic => "heuristic"@,
            },
    {
        match self {
            CliAgent::Auto => "auto",
            CliAgent::ExactTable => "exact-table",
            CliAgent::Hybrid => "hybrid",
            CliAgent::Heuristic => "heuristic",
        }
    }
}

/// The agent a name or alias stands for, if any.
pub open spec fn agent_for(s: Seq<u8>) -> Option<CliAgent> {
    if is_one_of(s, "auto", "best", "smartest") {
        Some(CliAgent::Auto)
    } else if is_one_of(s, "exact-table", "exact", "table") {
        Some(CliAgent::ExactTable)
    } else if s == "hybrid".spec_bytes() || s == "hybrid-v2".spec_bytes() {
        Some(CliAgent::Hybrid)
    } else if s == "heuristic".spec_bytes() {
        Some(CliAgent::Heuristic)
    } else {
        None
    }
}

/// The agent named by `value`, or a `ParseError` for an unknown name.
pub fn parse_agent(value: &str) -> (r: Result<CliAgent, KeiriError>)
    ensures
        match agent_for(value.spec_bytes()) {
            Some(a) => r == Ok::<CliAgent, KeiriError>(a),
            None => r is Err && fault_matches(
                r->Err_0,
                ParseFault::Syntax(quoted("unknown agent `"@, value.spec_bytes(), "`"@)),
            ),
        },
{
    let v = value.as_bytes();
    if bytes_eq(v, "auto".as_bytes()) || bytes_eq(v, "best".as_bytes()) || bytes_eq(v, "smartest".as_bytes()) {
        Ok(CliAgent::Auto)
    } else if bytes_eq(v, "exact-table".as_bytes()) || bytes_eq(v, "exact".as_bytes()) || bytes_eq(
        v,
        "table".as_bytes(),
    ) {
        Ok(CliAgent::ExactTable)
    } else if bytes_eq(v, "hybrid".as_bytes()) || bytes_eq(v, "hybrid-v2".as_bytes()) {
        Ok(CliAgent::Hybrid)
    } else if bytes_eq(v, "heuristic".as_bytes()) {
        Ok(CliAgent::Heuristic)
    } else {
        Err(KeiriError::ParseError(message("unknown agent `", v, "`")))
    }
}

/// The agent used when none is named: the automatic choice for every
/// ruleset.
pub fn default_agent_for_ruleset(ruleset: Ruleset) -> (r: CliAgent)
    ensures
        r == CliAgent::Auto,
{
    match ruleset {
        Ruleset::HasbroStrict => CliAgent::Auto,
        Ruleset::BuddyBoardGames => CliAgent::Auto,
    }
}

/// Where the exact table of a ruleset is kept unless another path is given.
pub fn default_anchor_table_path(ruleset: Ruleset) -> (r: String)
    ensures
        r@ == match ruleset {
            Ruleset::HasbroStrict => "target/keiri_tables/hasbro-anchor-v1.bin"@,
            Ruleset::BuddyBoardGames => "target/keiri_tables/bbg-anchor-v1.bin"@,
        },
{
    match ruleset {
        Ruleset::HasbroStrict => String::from_str("target/keiri_tables/hasbro-anchor-v1.bin"),
        Ruleset::BuddyBoardGames => String::from_str("target/keiri_tables/bbg-anchor-v1.bin"),
    }
}

} // verus!
