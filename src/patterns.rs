//! Allowed-tool patterns: `name` (exact), `prefix*` (prefix match), and the
//! server-scoped forms `server:*` and `server:pattern`.
use vstd::prelude::*;
use vstd::string::*;
use crate::text::{is_prefix, starts_with, str_eq, to_owned_string};

verus! {

/// The pattern ends with the wildcard `*`.
pub open spec fn ends_with_star(p: Seq<char>) -> bool {
    p.len() > 0 && p.last() == '*'
}

/// One pattern admits the tool `name`.
pub open spec fn pattern_matches(p: Seq<char>, name: Seq<char>) -> bool {
    if ends_with_star(p) {
        is_prefix(p.drop_last(), name)
    } else {
        p == name
    }
}

/// A pattern list admits `name`: it is empty, or one of its patterns matches.
pub open spec fn allowed_by(name: Seq<char>, pats: Seq<Seq<char>>) -> bool {
    pats.len() == 0 || exists|k: int| 0 <= k < pats.len() && pattern_matches(#[trigger] pats[k], name)
}

/// Whether the tool `tool_name` passes the allowed-tool patterns.
pub fn is_tool_allowed_by_patterns(tool_name: &str, allowed_tools: &[String]) -> (r: bool)
    ensures
        r == allowed_by(tool_name@, allowed_tools@.map_values(|s: String| s@)),
{
    let ghost pats = allowed_tools@.map_values(|s: String| s@);
    if allowed_tools.len() == 0 {
        return true;
    }
    let mut i: usize = 0;
    while i < allowed_tools.len()
        invariant
            i <= allowed_tools@.len(),
            pats == allowed_tools@.map_values(|s: String| s@),
            forall|k: int| 0 <= k < i ==> !pattern_matches(#[trigger] pats[k], tool_name@),
        decreases allowed_tools.len() - i,
    {
        let p: &str = allowed_tools[i].as_str();
        let n = p.unicode_len();
        assert(pats[i as int] == p@);
        if n > 0 && p.get_char(n - 1) == '*' {
            let prefix = p.substring_char(0, n - 1);
            assert(prefix@ =~= p@.drop_last());
            if starts_with(tool_name, prefix) {
                return true;
            }
        } else {
            if str_eq(tool_name, p) {
                return true;
            }
        }
        i = i + 1;
    }
    false
}

/// `i` is the position of the first `:` of `s`.
pub open spec fn first_colon_at(s: Seq<char>, i: int) -> bool {
    0 <= i < s.len() && s[i] == ':' && forall|j: int| 0 <= j < i ==> s[j] != ':'
}

/// `s` holds a `:`.
pub open spec fn has_colon(s: Seq<char>) -> bool {
    exists|i: int| first_colon_at(s, i)
}

/// The position of the first `:` of `s`.
pub open spec fn first_colon(s: Seq<char>) -> int {
    choose|i: int| first_colon_at(s, i)
}

/// The part before the first `:`.
pub open spec fn before_colon(s: Seq<char>) -> Seq<char> {
    s.subrange(0, first_colon(s))
}

/// The part after the first `:`.
pub open spec fn after_colon(s: Seq<char>) -> Seq<char> {
    s.subrange(first_colon(s) + 1, s.len() as int)
}

/// The pattern `server:*`: every tool of that server.
pub open spec fn is_all_marker(p: Seq<char>, server: Seq<char>) -> bool {
    has_colon(p) && before_colon(p) == server && after_colon(p) == "*"@
}

/// What one role pattern contributes to the list of a server.
pub open spec fn expand_one(p: Seq<char>, server: Seq<char>) -> Seq<Seq<char>> {
    if has_colon(p) {
        if before_colon(p) == server {
            seq![after_colon(p)]
        } else {
            seq![]
        }
    } else {
        seq![p]
    }
}

/// The contributions of the patterns, in order.
pub open spec fn expand_all(pats: Seq<Seq<char>>, server: Seq<char>) -> Seq<Seq<char>>
    decreases pats.len(),
{
    if pats.len() == 0 {
        seq![]
    } else {
        expand_all(pats.drop_last(), server) + expand_one(pats.last(), server)
    }
}

/// The role patterns turned into the tool list of one server: empty (all
/// tools) where a `server:*` pattern names it.
pub open spec fn expanded_for_server(pats: Seq<Seq<char>>, server: Seq<char>) -> Seq<Seq<char>> {
    if exists|k: int| 0 <= k < pats.len() && is_all_marker(#[trigger] pats[k], server) {
        seq![]
    } else {
        expand_all(pats, server)
    }
}

proof fn lemma_first_colon_unique(s: Seq<char>, i: int)
    requires
        first_colon_at(s, i),
    ensures
        has_colon(s),
        first_colon(s) == i,
{
    let j = first_colon(s);
    assert(first_colon_at(s, j));
    if j < i {
        assert(s[j] != ':');
    } else if i < j {
        assert(s[i] != ':');
    }
}

/// The first `:` of `s`, if any.
pub fn find_colon(s: &str) -> (r: Option<usize>)
    ensures
        r is Some <==> has_colon(s@),
        r is Some ==> r->0 == first_colon(s@),
{
    let n = s.unicode_len();
    let mut i: usize = 0;
    while i < n
        invariant
            n == s@.len(),
            i <= n,
            forall|j: int| 0 <= j < i ==> s@[j] != ':',
        decreases n - i,
    {
        if s.get_char(i) == ':' {
            proof {
                lemma_first_colon_unique(s@, i as int);
            }
            return Some(i);
        }
        i = i + 1;
    }
    assert(!has_colon(s@)) by {
        if has_colon(s@) {
            let j = choose|j: int| first_colon_at(s@, j);
            assert(s@[j] != ':');
        }
    }
    None
}

/// The patterns of a role turned into the tool list of the server `server_name`.
pub fn expand_patterns(allowed_tools: &Vec<String>, server_name: &str) -> (r: Vec<String>)
    ensures
        r@.map_values(|s: String| s@) == expanded_for_server(
            allowed_tools@.map_values(|s: String| s@),
            server_name@,
        ),
{
    let ghost pats = allowed_tools@.map_values(|s: String| s@);
    let mut out: Vec<String> = Vec::new();
    let mut i: usize = 0;
    while i < allowed_tools.len()
        invariant
            i <= allowed_tools@.len(),
            pats == allowed_tools@.map_values(|s: String| s@),
            out@.map_values(|s: String| s@) == expand_all(pats.subrange(0, i as int), server_name@),
            forall|k: int| 0 <= k < i ==> !is_all_marker(#[trigger] pats[k], server_name@),
        decreases allowed_tools.len() - i,
    {
        let p: &str = allowed_tools[i].as_str();
        assert(pats[i as int] == p@);
        assert(pats.subrange(0, i + 1).drop_last() =~= pats.subrange(0, i as int));
        let ghost before = out@.map_values(|s: String| s@);
        match find_colon(p) {
            Some(c) => {
                let n = p.unicode_len();
                let server_part = p.substring_char(0, c);
                let tool_part = p.substring_char(c + 1, n);
                if str_eq(server_part, server_name) {
                    proof {
                        reveal_strlit("*");
                    }
                    if str_eq(tool_part, "*") {
                        assert(is_all_marker(pats[i as int], server_name@));
                        let empty: Vec<String> = Vec::new();
                        assert(empty@.map_values(|s: String| s@) =~= seq![]);
                        return empty;
                    }
                    out.push(to_owned_string(tool_part));
                    assert(out@.map_values(|s: String| s@) =~= before + seq![tool_part@]);
                } else {
                    assert(out@.map_values(|s: String| s@) =~= before + seq![]);
                }
            },
            None => {
                out.push(to_owned_string(p));
                assert(out@.map_values(|s: String| s@) =~= before + seq![p@]);
            },
        }
        i = i + 1;
    }
    assert(pats.subrange(0, allowed_tools@.len() as int) =~= pats);
    out
}

} // verus!
