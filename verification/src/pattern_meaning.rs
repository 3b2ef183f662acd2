//! Which lines of an access log an OSSEC pattern selects.

use crate::condition::{ossec_shape, DefensiveCondition};
use crate::export::{
    flattens, leaf_value, literal, ossec_pattern_text, ossec_piece, ossec_pieces, ossec_pieces_up_to,
    regex_escaped, xml_escaped,
};
use crate::json::replaced;
use crate::rule_meaning::lemma_replaced_first;
use vstd::prelude::*;

verus! {

/// Whether a text starts with another.
pub open spec fn starts(p: Seq<char>, t: Seq<char>) -> bool {
    t.len() <= p.len() && p.take(t.len() as int) == t
}

/// Whether a text does not have a character.
pub open spec fn without(s: Seq<char>, c: char) -> bool {
    forall|i: int| 0 <= i < s.len() ==> #[trigger] s[i] != c
}

/// Whether a text is a word of capital letters.
pub open spec fn capitals(s: Seq<char>) -> bool {
    s.len() > 0 && forall|i: int| 0 <= i < s.len() ==> 'A' <= #[trigger] s[i] <= 'Z'
}

/// Whether a line matches what is left of a pattern: demands that look ahead from its start, each
/// in round brackets, and then anything.
pub open spec fn demands(p: Seq<char>, line: Seq<char>) -> bool
    decreases p.len(),
{
    if p.len() >= 5 && p.take(5) == seq!['(', '?', '=', '.', '*'] {
        exists|at: int|
            0 <= at <= line.len() && looks_at(p.skip(5), #[trigger] line.skip(at), line)
    } else {
        p == seq!['.', '*', '$']
    }
}

/// Whether a text starts as what is left of a demand says, up to its closing bracket, and the line
/// matches the rest of the pattern. A backslash stands before a character that is meant as such.
pub open spec fn looks_at(p: Seq<char>, s: Seq<char>, line: Seq<char>) -> bool
    decreases p.len(),
{
    if p.len() == 0 {
        false
    } else if p[0] == ')' {
        demands(p.skip(1), line)
    } else if p[0] == '\\' {
        p.len() >= 2 && s.len() > 0 && s[0] == p[1] && looks_at(p.skip(2), s.skip(1), line)
    } else if p[0] == '$' {
        s.len() == 0 && looks_at(p.skip(1), s, line)
    } else if p.len() >= 6 && p.take(6) == seq!['[', 'A', '-', 'Z', ']', '+'] {
        exists|n: int|
            1 <= n <= s.len() && capitals(s.take(n)) && looks_at(
                p.skip(6),
                #[trigger] s.skip(n),
                line,
            )
    } else if p.len() >= 5 && p.take(5) == seq!['[', '^', ' ', ']', '*'] {
        exists|n: int|
            0 <= n <= s.len() && without(s.take(n), ' ') && looks_at(
                p.skip(5),
                #[trigger] s.skip(n),
                line,
            )
    } else if p.len() >= 6 && p.take(6) == seq!['[', '^', '\\', '"', ']', '*'] {
        exists|n: int|
            0 <= n <= s.len() && without(s.take(n), '"') && looks_at(
                p.skip(6),
                #[trigger] s.skip(n),
                line,
            )
    } else if p.len() >= 12 && p.take(12) == seq![
        '(',
        '?',
        ':',
        '\\',
        '?',
        '[',
        '^',
        ' ',
        ']',
        '*',
        ')',
        '?',
    ] {
        looks_at(p.skip(12), s, line) || exists|n: int|
            1 <= n <= s.len() && s[0] == '?' && without(s.take(n), ' ') && looks_at(
                p.skip(12),
                #[trigger] s.skip(n),
                line,
            )
    } else {
        s.len() > 0 && s[0] == p[0] && looks_at(p.skip(1), s.skip(1), line)
    }
}

/// Whether a pattern selects a line.
pub open spec fn pattern_selects(p: Seq<char>, line: Seq<char>) -> bool {
    p.len() > 0 && p[0] == '^' && demands(p.skip(1), line)
}

/// Whether a line holds a quoted request with a target, between what stands before and after it.
pub open spec fn request_line(
    line: Seq<char>,
    before: Seq<char>,
    method: Seq<char>,
    target: Seq<char>,
    after: Seq<char>,
) -> bool {
    capitals(method) && line == before + "\""@ + method + " "@ + target + " HTTP/"@ + after
}

/// Whether a line ends with two quoted texts, the last of which is an agent.
pub open spec fn agent_line(
    line: Seq<char>,
    before: Seq<char>,
    referer: Seq<char>,
    agent: Seq<char>,
) -> bool {
    without(referer, '"') && line == before + "\""@ + referer + "\" \""@ + agent + "\""@
}

/// Whether a line holds a quoted text that starts with a method and a space.
pub open spec fn method_line(
    line: Seq<char>,
    before: Seq<char>,
    method: Seq<char>,
    after: Seq<char>,
) -> bool {
    line == before + "\""@ + method + " "@ + after
}

/// Whether a line is one that a condition asks for.
pub open spec fn asked_line(c: DefensiveCondition, line: Seq<char>) -> bool
    decreases c,
{
    match c {
        DefensiveCondition::MethodEquals { value } => exists|a: Seq<char>, b: Seq<char>|
            method_line(line, a, value@, b),
        DefensiveCondition::UriEquals { value } => exists|
            a: Seq<char>,
            m: Seq<char>,
            x: Seq<char>,
            b: Seq<char>,
        | #[trigger]
            request_line(line, a, m, value@ + x, b) && (x.len() == 0 || (x[0] == '?' && without(
                x,
                ' ',
            ))),
        DefensiveCondition::UriContains { value } => exists|
            a: Seq<char>,
            m: Seq<char>,
            x: Seq<char>,
            y: Seq<char>,
            b: Seq<char>,
        | #[trigger]
            request_line(line, a, m, x + value@ + y, b) && without(x, ' ') && without(y, ' '),
        DefensiveCondition::UriStartsWith { value } => exists|
            a: Seq<char>,
            m: Seq<char>,
            y: Seq<char>,
            b: Seq<char>,
        | #[trigger]
            request_line(line, a, m, value@ + y, b) && without(y, ' '),
        DefensiveCondition::QueryEquals { value } => exists|
            a: Seq<char>,
            m: Seq<char>,
            x: Seq<char>,
            b: Seq<char>,
        | #[trigger]
            request_line(line, a, m, x + "?"@ + value@, b) && without(x, ' '),
        DefensiveCondition::QueryContains { value } => exists|
            a: Seq<char>,
            m: Seq<char>,
            x: Seq<char>,
            y: Seq<char>,
            z: Seq<char>,
            b: Seq<char>,
        | #[trigger]
            request_line(line, a, m, x + "?"@ + y + value@ + z, b) && without(x, ' ') && without(
                y,
                ' ',
            ) && without(z, ' '),
        DefensiveCondition::UserAgentEquals { value } => exists|a: Seq<char>, x: Seq<char>|
            agent_line(line, a, x, value@),
        DefensiveCondition::UserAgentContains { value } => exists|
            a: Seq<char>,
            x: Seq<char>,
            y: Seq<char>,
            z: Seq<char>,
        | #[trigger]
            agent_line(line, a, x, y + value@ + z) && without(y, '"') && without(z, '"'),
        DefensiveCondition::And { conditions } => forall|i: int|
            0 <= i < conditions@.len() ==> asked_line(#[trigger] conditions@[i], line),
        _ => false,
    }
}

/// Whether a character stands for itself in a pattern.
spec fn is_plain(c: char) -> bool {
    c != ')' && c != '\\' && c != '$' && c != '[' && c != '('
}

proof fn lemma_char(c: char, q: Seq<char>, s: Seq<char>, line: Seq<char>)
    requires
        is_plain(c),
    ensures
        looks_at(seq![c] + q, s, line) == (s.len() > 0 && s[0] == c && looks_at(
            q,
            s.skip(1),
            line,
        )),
{
    let p = seq![c] + q;
    assert(p.skip(1) =~= q);
    assert(p[0] == c);
    if p.len() >= 5 {
        assert(p.take(5)[0] == c);
        assert(seq!['[', '^', ' ', ']', '*'][0] == '[');
    }
    if p.len() >= 6 {
        assert(p.take(6)[0] == c);
        assert(seq!['[', 'A', '-', 'Z', ']', '+'][0] == '[');
        assert(seq!['[', '^', '\\', '"', ']', '*'][0] == '[');
    }
    if p.len() >= 12 {
        assert(p.take(12)[0] == c);
        assert(seq!['(', '?', ':', '\\', '?', '[', '^', ' ', ']', '*', ')', '?'][0] == '(');
    }
}

proof fn lemma_escaped(c: char, q: Seq<char>, s: Seq<char>, line: Seq<char>)
    ensures
        looks_at(seq!['\\', c] + q, s, line) == (s.len() > 0 && s[0] == c && looks_at(
            q,
            s.skip(1),
            line,
        )),
{
    let p = seq!['\\', c] + q;
    assert(p.skip(2) =~= q);
    assert(p[0] == '\\' && p[1] == c);
}

proof fn lemma_starts(s: Seq<char>, v: Seq<char>)
    ensures
        starts(s, v) == (v.len() <= s.len() && s == v + s.skip(v.len() as int)),
{
    if v.len() <= s.len() {
        assert(s =~= s.take(v.len() as int) + s.skip(v.len() as int));
        if s == v + s.skip(v.len() as int) {
            assert(s.take(v.len() as int) =~= v);
        }
    }
}

/// What one character more at the front asks of a text.
proof fn lemma_starts_step(s: Seq<char>, v: Seq<char>)
    requires
        v.len() > 0,
    ensures
        starts(s, v) == (s.len() > 0 && s[0] == v[0] && starts(s.skip(1), v.skip(1))),
        v.len() <= s.len() ==> s.skip(1).skip(v.len() - 1) == s.skip(v.len() as int),
{
    let n = v.len() as int;
    if n <= s.len() {
        assert(s.skip(1).skip(n - 1) =~= s.skip(n));
    }
    if starts(s, v) {
        assert(s.take(n)[0] == v[0]);
        assert(s.skip(1).take(n - 1) =~= v.skip(1)) by {
            assert forall|i: int| 0 <= i < n - 1 implies s.skip(1).take(n - 1)[i] == v.skip(1)[i] by {
                assert(s.take(n)[i + 1] == v[i + 1]);
            }
        }
    }
    if s.len() > 0 && s[0] == v[0] && starts(s.skip(1), v.skip(1)) {
        assert forall|i: int| 0 <= i < n implies s.take(n)[i] == v[i] by {
            if i > 0 {
                assert(s.skip(1).take(n - 1)[i - 1] == v.skip(1)[i - 1]);
            }
        }
        assert(s.take(n) =~= v);
    }
}

proof fn lemma_plain(w: Seq<char>, q: Seq<char>, s: Seq<char>, line: Seq<char>)
    requires
        forall|i: int| 0 <= i < w.len() ==> is_plain(#[trigger] w[i]),
    ensures
        looks_at(w + q, s, line) == (starts(s, w) && looks_at(q, s.skip(w.len() as int), line)),
    decreases w.len(),
{
    if w.len() == 0 {
        assert(w + q =~= q);
        assert(s.skip(0) =~= s);
        assert(s.take(0) =~= w);
    } else {
        let rest = w.skip(1);
        assert forall|i: int| 0 <= i < rest.len() implies is_plain(#[trigger] rest[i]) by {
            assert(rest[i] == w[i + 1]);
        }
        assert(w + q =~= seq![w[0]] + (rest + q));
        lemma_char(w[0], rest + q, s, line);
        lemma_starts_step(s, w);
        if s.len() > 0 {
            lemma_plain(rest, q, s.skip(1), line);
        }
    }
}

proof fn lemma_literal(v: Seq<char>, q: Seq<char>, s: Seq<char>, line: Seq<char>)
    ensures
        looks_at(literal(v) + q, s, line) == (starts(s, v) && looks_at(
            q,
            s.skip(v.len() as int),
            line,
        )),
    decreases v.len(),
{
    let f = |c: char| regex_escaped(c);
    if v.len() == 0 {
        assert(literal(v) + q =~= q);
        assert(s.skip(0) =~= s);
        assert(s.take(0) =~= v);
    } else {
        let (c, rest) = (v[0], v.skip(1));
        lemma_replaced_first(v, f);
        assert(literal(v) == regex_escaped(c) + literal(rest));
        assert(literal(v) + q =~= regex_escaped(c) + (literal(rest) + q));
        if regex_escaped(c) == seq!['\\', c] {
            lemma_escaped(c, literal(rest) + q, s, line);
        } else {
            lemma_char(c, literal(rest) + q, s, line);
        }
        lemma_starts_step(s, v);
        if s.len() > 0 {
            lemma_literal(rest, q, s.skip(1), line);
        }
    }
}

spec fn split(s: Seq<char>, x: Seq<char>, t: Seq<char>) -> bool {
    s == x + t
}

proof fn lemma_split(x: Seq<char>, t: Seq<char>)
    ensures
        (x + t).skip(x.len() as int) == t,
        (x + t).take(x.len() as int) == x,
        starts(x + t, x),
{
    assert((x + t).skip(x.len() as int) =~= t);
    assert((x + t).take(x.len() as int) =~= x);
}

proof fn lemma_parted(s: Seq<char>, n: int)
    requires
        0 <= n <= s.len(),
    ensures
        split(s, s.take(n), s.skip(n)),
{
    assert(s =~= s.take(n) + s.skip(n));
}

spec fn spaceless_run(q: Seq<char>, s: Seq<char>, line: Seq<char>) -> bool {
    exists|x: Seq<char>, t: Seq<char>|
        #[trigger] split(s, x, t) && without(x, ' ') && looks_at(q, t, line)
}

proof fn lemma_spaceless(q: Seq<char>, s: Seq<char>, line: Seq<char>)
    ensures
        looks_at(seq!['[', '^', ' ', ']', '*'] + q, s, line) == spaceless_run(q, s, line),
{
    let token = seq!['[', '^', ' ', ']', '*'];
    let p = token + q;
    assert(p.take(5) =~= token);
    assert(p.skip(5) =~= q);
    assert(p[0] == '[' && p[1] == '^');
    if p.len() >= 6 {
        assert(p.take(6)[1] == '^');
        assert(seq!['[', 'A', '-', 'Z', ']', '+'][1] == 'A');
    }
    if looks_at(p, s, line) {
        let n = choose|n: int|
            0 <= n <= s.len() && without(s.take(n), ' ') && looks_at(q, #[trigger] s.skip(n), line);
        lemma_parted(s, n);
    }
    if spaceless_run(q, s, line) {
        let (x, t) = choose|x: Seq<char>, t: Seq<char>|
            #[trigger] split(s, x, t) && without(x, ' ') && looks_at(q, t, line);
        lemma_split(x, t);
        assert(s.skip(x.len() as int) == t);
    }
}

spec fn quoteless_run(q: Seq<char>, s: Seq<char>, line: Seq<char>) -> bool {
    exists|x: Seq<char>, t: Seq<char>|
        #[trigger] split(s, x, t) && without(x, '"') && looks_at(q, t, line)
}

proof fn lemma_quoteless(q: Seq<char>, s: Seq<char>, line: Seq<char>)
    ensures
        looks_at(seq!['[', '^', '\\', '"', ']', '*'] + q, s, line) == quoteless_run(q, s, line),
{
    let token = seq!['[', '^', '\\', '"', ']', '*'];
    let p = token + q;
    assert(p.take(6) =~= token);
    assert(p.skip(6) =~= q);
    assert(p[0] == '[' && p[1] == '^');
    assert(p.take(6)[1] == '^' && p.take(5)[2] == '\\');
    assert(seq!['[', 'A', '-', 'Z', ']', '+'][1] == 'A');
    assert(seq!['[', '^', ' ', ']', '*'][2] == ' ');
    if looks_at(p, s, line) {
        let n = choose|n: int|
            0 <= n <= s.len() && without(s.take(n), '"') && looks_at(q, #[trigger] s.skip(n), line);
        lemma_parted(s, n);
    }
    if quoteless_run(q, s, line) {
        let (x, t) = choose|x: Seq<char>, t: Seq<char>|
            #[trigger] split(s, x, t) && without(x, '"') && looks_at(q, t, line);
        lemma_split(x, t);
        assert(s.skip(x.len() as int) == t);
    }
}

spec fn capital_run(q: Seq<char>, s: Seq<char>, line: Seq<char>) -> bool {
    exists|x: Seq<char>, t: Seq<char>|
        #[trigger] split(s, x, t) && capitals(x) && looks_at(q, t, line)
}

proof fn lemma_capitals(q: Seq<char>, s: Seq<char>, line: Seq<char>)
    ensures
        looks_at(seq!['[', 'A', '-', 'Z', ']', '+'] + q, s, line) == capital_run(q, s, line),
{
    let token = seq!['[', 'A', '-', 'Z', ']', '+'];
    let p = token + q;
    assert(p.take(6) =~= token);
    assert(p.skip(6) =~= q);
    assert(p[0] == '[');
    if looks_at(p, s, line) {
        let n = choose|n: int|
            1 <= n <= s.len() && capitals(s.take(n)) && looks_at(q, #[trigger] s.skip(n), line);
        lemma_parted(s, n);
    }
    if capital_run(q, s, line) {
        let (x, t) = choose|x: Seq<char>, t: Seq<char>|
            #[trigger] split(s, x, t) && capitals(x) && looks_at(q, t, line);
        lemma_split(x, t);
        assert(s.skip(x.len() as int) == t);
    }
}

/// Whether a text is what may follow a path: nothing, or a query.
spec fn is_tail(x: Seq<char>) -> bool {
    x.len() == 0 || (x[0] == '?' && without(x, ' '))
}

spec fn query_run(q: Seq<char>, s: Seq<char>, line: Seq<char>) -> bool {
    exists|x: Seq<char>, t: Seq<char>|
        #[trigger] split(s, x, t) && is_tail(x) && looks_at(q, t, line)
}

proof fn lemma_optional_query(q: Seq<char>, s: Seq<char>, line: Seq<char>)
    ensures
        looks_at(
            seq!['(', '?', ':', '\\', '?', '[', '^', ' ', ']', '*', ')', '?'] + q,
            s,
            line,
        ) == query_run(q, s, line),
{
    let token = seq!['(', '?', ':', '\\', '?', '[', '^', ' ', ']', '*', ')', '?'];
    let p = token + q;
    assert(p.take(12) =~= token);
    assert(p.skip(12) =~= q);
    assert(p[0] == '(');
    assert(p.take(6)[0] == '(' && p.take(5)[0] == '(');
    assert(seq!['[', 'A', '-', 'Z', ']', '+'][0] == '[');
    assert(seq!['[', '^', ' ', ']', '*'][0] == '[');
    assert(seq!['[', '^', '\\', '"', ']', '*'][0] == '[');
    if looks_at(p, s, line) {
        if looks_at(q, s, line) {
            lemma_parted(s, 0);
            assert(s.skip(0) =~= s);
            assert(is_tail(s.take(0)));
        } else {
            let n = choose|n: int|
                1 <= n <= s.len() && s[0] == '?' && without(s.take(n), ' ') && looks_at(
                    q,
                    #[trigger] s.skip(n),
                    line,
                );
            lemma_parted(s, n);
            assert(s.take(n)[0] == '?');
            assert(is_tail(s.take(n)));
        }
    }
    if query_run(q, s, line) {
        let (x, t) = choose|x: Seq<char>, t: Seq<char>|
            #[trigger] split(s, x, t) && is_tail(x) && looks_at(q, t, line);
        lemma_split(x, t);
        if x.len() == 0 {
            assert(s =~= t);
        } else {
            assert(s.skip(x.len() as int) == t);
            assert(s[0] == '?');
        }
    }
}

spec fn some_place(q: Seq<char>, line: Seq<char>) -> bool {
    exists|x: Seq<char>, t: Seq<char>| #[trigger] split(line, x, t) && looks_at(q, t, line)
}

proof fn lemma_demand(q: Seq<char>, line: Seq<char>)
    ensures
        demands(seq!['(', '?', '=', '.', '*'] + q, line) == some_place(q, line),
{
    let token = seq!['(', '?', '=', '.', '*'];
    let p = token + q;
    assert(p.take(5) =~= token);
    assert(p.skip(5) =~= q);
    if demands(p, line) {
        let at = choose|at: int|
            0 <= at <= line.len() && looks_at(q, #[trigger] line.skip(at), line);
        lemma_parted(line, at);
    }
    if some_place(q, line) {
        let (x, t) = choose|x: Seq<char>, t: Seq<char>|
            #[trigger] split(line, x, t) && looks_at(q, t, line);
        lemma_split(x, t);
        assert(line.skip(x.len() as int) == t);
    }
}

proof fn lemma_closed(q: Seq<char>, s: Seq<char>, line: Seq<char>)
    ensures
        looks_at(seq![')'] + q, s, line) == demands(q, line),
{
    let p = seq![')'] + q;
    assert(p.skip(1) =~= q);
    assert(p[0] == ')');
}

proof fn lemma_at_end(q: Seq<char>, s: Seq<char>, line: Seq<char>)
    ensures
        looks_at(seq!['$', ')'] + q, s, line) == (s.len() == 0 && demands(q, line)),
{
    let p = seq!['$', ')'] + q;
    assert(p.skip(1) =~= seq![')'] + q);
    assert(p[0] == '$');
    lemma_closed(q, s, line);
}

/// What ends the demand on a request.
proof fn lemma_protocol(q: Seq<char>, s: Seq<char>, line: Seq<char>)
    ensures
        looks_at(" HTTP/)"@ + q, s, line) == (starts(s, " HTTP/"@) && demands(q, line)),
{
    reveal_strlit(" HTTP/)");
    reveal_strlit(" HTTP/");
    let w = " HTTP/"@;
    assert(" HTTP/)"@ + q =~= w + (seq![')'] + q));
    lemma_plain(w, seq![')'] + q, s, line);
    lemma_closed(q, s.skip(w.len() as int), line);
}

/// Whether a line holds the start of a quoted request.
spec fn opened(line: Seq<char>, a: Seq<char>, m: Seq<char>, t: Seq<char>) -> bool {
    capitals(m) && line == a + "\""@ + m + " "@ + t
}

spec fn some_request(tail: Seq<char>, line: Seq<char>) -> bool {
    exists|a: Seq<char>, m: Seq<char>, t: Seq<char>|
        #[trigger] opened(line, a, m, t) && looks_at(tail, t, line)
}

/// What starts the demand on a request.
#[verifier::rlimit(50)]
#[verifier::spinoff_prover]
proof fn lemma_request(tail: Seq<char>, line: Seq<char>)
    ensures
        demands("(?=.*\\\"[A-Z]+ "@ + tail, line) == some_request(tail, line),
{
    reveal_strlit("(?=.*\\\"[A-Z]+ ");
    reveal_strlit("\"");
    reveal_strlit(" ");
    let q3 = seq![' '] + tail;
    let q2 = seq!['[', 'A', '-', 'Z', ']', '+'] + q3;
    let q1 = seq!['\\', '"'] + q2;
    assert("(?=.*\\\"[A-Z]+ "@ + tail =~= seq!['(', '?', '=', '.', '*'] + q1);
    lemma_demand(q1, line);
    if some_place(q1, line) {
        let (a, s) = choose|x: Seq<char>, t: Seq<char>|
            #[trigger] split(line, x, t) && looks_at(q1, t, line);
        lemma_escaped('"', q2, s, line);
        let s1 = s.skip(1);
        lemma_capitals(q3, s1, line);
        let (m, s2) = choose|x: Seq<char>, t: Seq<char>|
            #[trigger] split(s1, x, t) && capitals(x) && looks_at(q3, t, line);
        lemma_char(' ', tail, s2, line);
        let t = s2.skip(1);
        assert(line =~= a + "\""@ + m + " "@ + t) by {
            assert(s =~= seq!['"'] + s1);
            assert(s2 =~= seq![' '] + t);
        }
        assert(opened(line, a, m, t));
    }
    if some_request(tail, line) {
        let (a, m, t) = choose|a: Seq<char>, m: Seq<char>, t: Seq<char>|
            #[trigger] opened(line, a, m, t) && looks_at(tail, t, line);
        let s2 = seq![' '] + t;
        let s1 = m + s2;
        let s = seq!['"'] + s1;
        assert(line =~= a + s);
        assert(s2.skip(1) =~= t);
        lemma_char(' ', tail, s2, line);
        assert(split(s1, m, s2));
        lemma_capitals(q3, s1, line);
        assert(s.skip(1) =~= s1);
        lemma_escaped('"', q2, s, line);
        assert(split(line, a, s));
    }
}

/// What a text has to be where it starts with another.
proof fn lemma_read(v: Seq<char>, s: Seq<char>)
    requires
        starts(s, v),
    ensures
        s == v + s.skip(v.len() as int),
{
    lemma_starts(s, v);
}

/// A protocol behind a target is read.
proof fn lemma_protocol_read(q: Seq<char>, b: Seq<char>, line: Seq<char>)
    ensures
        looks_at(" HTTP/)"@ + q, " HTTP/"@ + b, line) == demands(q, line),
{
    lemma_protocol(q, " HTTP/"@ + b, line);
    lemma_split(" HTTP/"@, b);
}

/// A value is read.
proof fn lemma_literal_read(v: Seq<char>, q: Seq<char>, t: Seq<char>, line: Seq<char>)
    ensures
        looks_at(literal(v) + q, v + t, line) == looks_at(q, t, line),
{
    lemma_literal(v, q, v + t, line);
    lemma_split(v, t);
}

proof fn lemma_target(line: Seq<char>, a: Seq<char>, m: Seq<char>, target: Seq<char>, b: Seq<char>)
    ensures
        request_line(line, a, m, target, b) == opened(line, a, m, target + " HTTP/"@ + b),
{
    assert(a + "\""@ + m + " "@ + target + " HTTP/"@ + b =~= a + "\""@ + m + " "@ + (target
        + " HTTP/"@ + b));
}

#[verifier::rlimit(50)]
#[verifier::spinoff_prover]
proof fn lemma_uri_equals(c: DefensiveCondition, q: Seq<char>, line: Seq<char>)
    requires
        c is UriEquals,
    ensures
        demands(ossec_piece(c) + q, line) == (asked_line(c, line) && demands(q, line)),
{
    let v = leaf_value(c);
    let http = " HTTP/"@;
    let q1 = " HTTP/)"@ + q;
    let q2 = seq!['(', '?', ':', '\\', '?', '[', '^', ' ', ']', '*', ')', '?'] + q1;
    let tail = literal(v) + q2;
    reveal_strlit("(?:\\?[^ ]*)? HTTP/)");
    reveal_strlit(" HTTP/)");
    assert(ossec_piece(c) + q =~= "(?=.*\\\"[A-Z]+ "@ + tail);
    lemma_request(tail, line);
    if some_request(tail, line) {
        let (a, m, t) = choose|a: Seq<char>, m: Seq<char>, t: Seq<char>|
            #[trigger] opened(line, a, m, t) && looks_at(tail, t, line);
        lemma_literal(v, q2, t, line);
        lemma_read(v, t);
        let s1 = t.skip(v.len() as int);
        lemma_optional_query(q1, s1, line);
        let (x, u) = choose|x: Seq<char>, t: Seq<char>|
            #[trigger] split(s1, x, t) && is_tail(x) && looks_at(q1, t, line);
        lemma_protocol(q, u, line);
        lemma_read(http, u);
        let b = u.skip(http.len() as int);
        assert(t =~= (v + x) + http + b);
        lemma_target(line, a, m, v + x, b);
        assert(request_line(line, a, m, v + x, b));
    }
    if asked_line(c, line) && demands(q, line) {
        let (a, m, x, b) = choose|a: Seq<char>, m: Seq<char>, x: Seq<char>, b: Seq<char>|
            #[trigger] request_line(line, a, m, v + x, b) && (x.len() == 0 || (x[0] == '?'
                && without(x, ' ')));
        lemma_target(line, a, m, v + x, b);
        let t = (v + x) + http + b;
        let u = http + b;
        lemma_protocol_read(q, b, line);
        assert(split(x + u, x, u) && is_tail(x));
        lemma_optional_query(q1, x + u, line);
        lemma_literal_read(v, q2, x + u, line);
        assert(t =~= v + (x + u));
        assert(opened(line, a, m, t));
    }
}

#[verifier::rlimit(50)]
#[verifier::spinoff_prover]
proof fn lemma_uri_starts(c: DefensiveCondition, q: Seq<char>, line: Seq<char>)
    requires
        c is UriStartsWith,
    ensures
        demands(ossec_piece(c) + q, line) == (asked_line(c, line) && demands(q, line)),
{
    let v = leaf_value(c);
    let http = " HTTP/"@;
    let q1 = " HTTP/)"@ + q;
    let q2 = seq!['[', '^', ' ', ']', '*'] + q1;
    let tail = literal(v) + q2;
    reveal_strlit("[^ ]* HTTP/)");
    reveal_strlit(" HTTP/)");
    assert(ossec_piece(c) + q =~= "(?=.*\\\"[A-Z]+ "@ + tail);
    lemma_request(tail, line);
    if some_request(tail, line) {
        let (a, m, t) = choose|a: Seq<char>, m: Seq<char>, t: Seq<char>|
            #[trigger] opened(line, a, m, t) && looks_at(tail, t, line);
        lemma_literal(v, q2, t, line);
        lemma_read(v, t);
        let s1 = t.skip(v.len() as int);
        lemma_spaceless(q1, s1, line);
        let (y, u) = choose|x: Seq<char>, t: Seq<char>|
            #[trigger] split(s1, x, t) && without(x, ' ') && looks_at(q1, t, line);
        lemma_protocol(q, u, line);
        lemma_read(http, u);
        let b = u.skip(http.len() as int);
        assert(t =~= (v + y) + http + b);
        lemma_target(line, a, m, v + y, b);
        assert(request_line(line, a, m, v + y, b));
    }
    if asked_line(c, line) && demands(q, line) {
        let (a, m, y, b) = choose|a: Seq<char>, m: Seq<char>, y: Seq<char>, b: Seq<char>|
            #[trigger] request_line(line, a, m, v + y, b) && without(y, ' ');
        lemma_target(line, a, m, v + y, b);
        let t = (v + y) + http + b;
        let u = http + b;
        lemma_protocol_read(q, b, line);
        assert(split(y + u, y, u));
        lemma_spaceless(q1, y + u, line);
        lemma_literal_read(v, q2, y + u, line);
        assert(t =~= v + (y + u));
        assert(opened(line, a, m, t));
    }
}

#[verifier::rlimit(50)]
#[verifier::spinoff_prover]
proof fn lemma_uri_contains(c: DefensiveCondition, q: Seq<char>, line: Seq<char>)
    requires
        c is UriContains,
    ensures
        demands(ossec_piece(c) + q, line) == (asked_line(c, line) && demands(q, line)),
{
    let v = leaf_value(c);
    let http = " HTTP/"@;
    let q1 = " HTTP/)"@ + q;
    let q2 = seq!['[', '^', ' ', ']', '*'] + q1;
    let q3 = literal(v) + q2;
    let tail = seq!['[', '^', ' ', ']', '*'] + q3;
    reveal_strlit("[^ ]* HTTP/)");
    reveal_strlit(" HTTP/)");
    reveal_strlit("(?=.*\\\"[A-Z]+ ");
    reveal_strlit("(?=.*\\\"[A-Z]+ [^ ]*");
    assert(ossec_piece(c) + q =~= "(?=.*\\\"[A-Z]+ "@ + tail);
    lemma_request(tail, line);
    if some_request(tail, line) {
        let (a, m, t) = choose|a: Seq<char>, m: Seq<char>, t: Seq<char>|
            #[trigger] opened(line, a, m, t) && looks_at(tail, t, line);
        lemma_spaceless(q3, t, line);
        let (x, s0) = choose|x: Seq<char>, u: Seq<char>|
            #[trigger] split(t, x, u) && without(x, ' ') && looks_at(q3, u, line);
        lemma_literal(v, q2, s0, line);
        lemma_read(v, s0);
        let s1 = s0.skip(v.len() as int);
        lemma_spaceless(q1, s1, line);
        let (y, u) = choose|x: Seq<char>, t: Seq<char>|
            #[trigger] split(s1, x, t) && without(x, ' ') && looks_at(q1, t, line);
        lemma_protocol(q, u, line);
        lemma_read(http, u);
        let b = u.skip(http.len() as int);
        assert(t =~= (x + v + y) + http + b);
        lemma_target(line, a, m, x + v + y, b);
        assert(request_line(line, a, m, x + v + y, b));
    }
    if asked_line(c, line) && demands(q, line) {
        let (a, m, x, y, b) = choose|
            a: Seq<char>,
            m: Seq<char>,
            x: Seq<char>,
            y: Seq<char>,
            b: Seq<char>,
        |
            #[trigger] request_line(line, a, m, x + v + y, b) && without(x, ' ') && without(y, ' ');
        lemma_target(line, a, m, x + v + y, b);
        let t = (x + v + y) + http + b;
        let u = http + b;
        lemma_protocol_read(q, b, line);
        assert(split(y + u, y, u));
        lemma_spaceless(q1, y + u, line);
        lemma_literal_read(v, q2, y + u, line);
        assert(t =~= x + (v + (y + u)));
        assert(split(t, x, v + (y + u)));
        lemma_spaceless(q3, t, line);
        assert(opened(line, a, m, t));
    }
}

#[verifier::rlimit(50)]
#[verifier::spinoff_prover]
proof fn lemma_query_equals(c: DefensiveCondition, q: Seq<char>, line: Seq<char>)
    requires
        c is QueryEquals,
    ensures
        demands(ossec_piece(c) + q, line) == (asked_line(c, line) && demands(q, line)),
{
    let v = leaf_value(c);
    let http = " HTTP/"@;
    let mark = "?"@;
    let q1 = " HTTP/)"@ + q;
    let q2 = literal(v) + q1;
    let q3 = seq!['\\', '?'] + q2;
    let tail = seq!['[', '^', ' ', ']', '*'] + q3;
    reveal_strlit("?");
    reveal_strlit("(?=.*\\\"[A-Z]+ ");
    reveal_strlit("(?=.*\\\"[A-Z]+ [^ ]*\\?");
    assert(ossec_piece(c) + q =~= "(?=.*\\\"[A-Z]+ "@ + tail);
    lemma_request(tail, line);
    if some_request(tail, line) {
        let (a, m, t) = choose|a: Seq<char>, m: Seq<char>, t: Seq<char>|
            #[trigger] opened(line, a, m, t) && looks_at(tail, t, line);
        lemma_spaceless(q3, t, line);
        let (x, s0) = choose|x: Seq<char>, u: Seq<char>|
            #[trigger] split(t, x, u) && without(x, ' ') && looks_at(q3, u, line);
        lemma_escaped('?', q2, s0, line);
        let s1 = s0.skip(1);
        assert(s0 =~= mark + s1);
        lemma_literal(v, q1, s1, line);
        lemma_read(v, s1);
        let u = s1.skip(v.len() as int);
        lemma_protocol(q, u, line);
        lemma_read(http, u);
        let b = u.skip(http.len() as int);
        assert(t =~= (x + mark + v) + http + b);
        lemma_target(line, a, m, x + mark + v, b);
        assert(request_line(line, a, m, x + mark + v, b));
    }
    if asked_line(c, line) && demands(q, line) {
        let (a, m, x, b) = choose|a: Seq<char>, m: Seq<char>, x: Seq<char>, b: Seq<char>|
            #[trigger] request_line(line, a, m, x + mark + v, b) && without(x, ' ');
        lemma_target(line, a, m, x + mark + v, b);
        let t = (x + mark + v) + http + b;
        let u = http + b;
        lemma_protocol_read(q, b, line);
        lemma_literal_read(v, q1, u, line);
        let s0 = mark + (v + u);
        assert(s0.skip(1) =~= v + u);
        lemma_escaped('?', q2, s0, line);
        assert(t =~= x + s0);
        assert(split(t, x, s0));
        lemma_spaceless(q3, t, line);
        assert(opened(line, a, m, t));
    }
}

/// What the demand on a part of a query asks, piece by piece.
spec fn query_part_tail(v: Seq<char>, q: Seq<char>) -> Seq<char> {
    let run = seq!['[', '^', ' ', ']', '*'];
    run + (seq!['\\', '?'] + (run + (literal(v) + (run + (" HTTP/)"@ + q)))))
}

proof fn lemma_query_part_shape(c: DefensiveCondition, q: Seq<char>)
    requires
        c is QueryContains,
    ensures
        ossec_piece(c) + q == "(?=.*\\\"[A-Z]+ "@ + query_part_tail(leaf_value(c), q),
{
    reveal_strlit("[^ ]* HTTP/)");
    reveal_strlit(" HTTP/)");
    reveal_strlit("(?=.*\\\"[A-Z]+ ");
    reveal_strlit("(?=.*\\\"[A-Z]+ [^ ]*\\?[^ ]*");
    let run = seq!['[', '^', ' ', ']', '*'];
    assert("(?=.*\\\"[A-Z]+ [^ ]*\\?[^ ]*"@ =~= "(?=.*\\\"[A-Z]+ "@ + run + seq!['\\', '?'] + run);
    assert("[^ ]* HTTP/)"@ =~= run + " HTTP/)"@);
    assert(ossec_piece(c) + q =~= "(?=.*\\\"[A-Z]+ "@ + query_part_tail(leaf_value(c), q));
}

/// A text behind the value of a part of a query: anything but a space, and the protocol.
spec fn part_end(s: Seq<char>, z: Seq<char>, b: Seq<char>) -> bool {
    without(z, ' ') && s == z + " HTTP/"@ + b
}

proof fn lemma_part_end(q: Seq<char>, s: Seq<char>, line: Seq<char>)
    ensures
        looks_at(seq!['[', '^', ' ', ']', '*'] + (" HTTP/)"@ + q), s, line) == (demands(q, line)
            && exists|z: Seq<char>, b: Seq<char>| part_end(s, z, b)),
{
    let http = " HTTP/"@;
    let q1 = " HTTP/)"@ + q;
    lemma_spaceless(q1, s, line);
    if spaceless_run(q1, s, line) {
        let (z, u) = choose|x: Seq<char>, t: Seq<char>|
            #[trigger] split(s, x, t) && without(x, ' ') && looks_at(q1, t, line);
        lemma_protocol(q, u, line);
        lemma_read(http, u);
        let b = u.skip(http.len() as int);
        assert(s =~= z + http + b);
        assert(part_end(s, z, b));
    }
    if demands(q, line) && exists|z: Seq<char>, b: Seq<char>| part_end(s, z, b) {
        let (z, b) = choose|z: Seq<char>, b: Seq<char>| part_end(s, z, b);
        let u = http + b;
        lemma_protocol_read(q, b, line);
        assert(s =~= z + u);
        assert(split(s, z, u));
    }
}

#[verifier::rlimit(50)]
#[verifier::spinoff_prover]
proof fn lemma_query_part_found(v: Seq<char>, q: Seq<char>, line: Seq<char>) -> (r: (
    Seq<char>,
    Seq<char>,
    Seq<char>,
    Seq<char>,
    Seq<char>,
    Seq<char>,
))
    requires
        some_request(query_part_tail(v, q), line),
    ensures
        request_line(line, r.0, r.1, r.2 + "?"@ + r.3 + v + r.4, r.5),
        without(r.2, ' '),
        without(r.3, ' '),
        without(r.4, ' '),
        demands(q, line),
{
    let run = seq!['[', '^', ' ', ']', '*'];
    let mark = "?"@;
    let http = " HTTP/"@;
    let q2 = run + (" HTTP/)"@ + q);
    let q3 = literal(v) + q2;
    let q4 = run + q3;
    let q5 = seq!['\\', '?'] + q4;
    let (a, m, t) = choose|a: Seq<char>, m: Seq<char>, t: Seq<char>|
        #[trigger] opened(line, a, m, t) && looks_at(query_part_tail(v, q), t, line);
    lemma_spaceless(q5, t, line);
    let (x, s0) = choose|x: Seq<char>, u: Seq<char>|
        #[trigger] split(t, x, u) && without(x, ' ') && looks_at(q5, u, line);
    lemma_escaped('?', q4, s0, line);
    let s1 = s0.skip(1);
    assert(s0 == mark + s1) by {
        reveal_strlit("?");
        assert(s0 =~= mark + s1);
    }
    lemma_spaceless(q3, s1, line);
    let (y, s2) = choose|x: Seq<char>, u: Seq<char>|
        #[trigger] split(s1, x, u) && without(x, ' ') && looks_at(q3, u, line);
    lemma_literal(v, q2, s2, line);
    lemma_read(v, s2);
    let s3 = s2.skip(v.len() as int);
    lemma_part_end(q, s3, line);
    let (z, b) = choose|z: Seq<char>, b: Seq<char>| part_end(s3, z, b);
    lemma_joined(x, mark, y, v, z, http + b);
    assert(s3 =~= z + (http + b));
    assert((x + mark + y + v + z) + (http + b) =~= (x + mark + y + v + z) + http + b);
    lemma_target(line, a, m, x + mark + y + v + z, b);
    (a, m, x, y, z, b)
}

proof fn lemma_joined(
    x: Seq<char>,
    mark: Seq<char>,
    y: Seq<char>,
    v: Seq<char>,
    z: Seq<char>,
    u: Seq<char>,
)
    ensures
        x + (mark + (y + (v + (z + u)))) == (x + mark + y + v + z) + u,
{
    assert(x + (mark + (y + (v + (z + u)))) =~= (x + mark + y + v + z) + u);
}

#[verifier::rlimit(50)]
#[verifier::spinoff_prover]
proof fn lemma_query_part_asked(
    v: Seq<char>,
    q: Seq<char>,
    line: Seq<char>,
    a: Seq<char>,
    m: Seq<char>,
    x: Seq<char>,
    y: Seq<char>,
    z: Seq<char>,
    b: Seq<char>,
)
    requires
        request_line(line, a, m, x + "?"@ + y + v + z, b),
        without(x, ' '),
        without(y, ' '),
        without(z, ' '),
        demands(q, line),
    ensures
        some_request(query_part_tail(v, q), line),
{
    let run = seq!['[', '^', ' ', ']', '*'];
    let mark = "?"@;
    let http = " HTTP/"@;
    let q2 = run + (" HTTP/)"@ + q);
    let q3 = literal(v) + q2;
    let q4 = run + q3;
    let q5 = seq!['\\', '?'] + q4;
    let u = http + b;
    let s3 = z + u;
    assert(s3 =~= z + http + b);
    assert(part_end(s3, z, b));
    lemma_part_end(q, s3, line);
    lemma_literal_read(v, q2, s3, line);
    let s1 = y + (v + s3);
    assert(split(s1, y, v + s3));
    lemma_spaceless(q3, s1, line);
    let s0 = mark + s1;
    assert(s0.len() > 0 && s0[0] == '?' && s0.skip(1) == s1) by {
        reveal_strlit("?");
        assert(s0.skip(1) =~= s1);
    }
    lemma_escaped('?', q4, s0, line);
    let t = x + s0;
    assert(split(t, x, s0));
    lemma_spaceless(q5, t, line);
    lemma_joined(x, mark, y, v, z, u);
    assert((x + mark + y + v + z) + u =~= (x + mark + y + v + z) + http + b);
    lemma_target(line, a, m, x + mark + y + v + z, b);
    assert(opened(line, a, m, t));
}

proof fn lemma_query_contains(c: DefensiveCondition, q: Seq<char>, line: Seq<char>)
    requires
        c is QueryContains,
    ensures
        demands(ossec_piece(c) + q, line) == (asked_line(c, line) && demands(q, line)),
{
    let v = leaf_value(c);
    let tail = query_part_tail(v, q);
    lemma_query_part_shape(c, q);
    lemma_request(tail, line);
    if some_request(tail, line) {
        let (a, m, x, y, z, b) = lemma_query_part_found(v, q, line);
        assert(request_line(line, a, m, x + "?"@ + y + v + z, b));
    }
    if asked_line(c, line) && demands(q, line) {
        let (a, m, x, y, z, b) = choose|
            a: Seq<char>,
            m: Seq<char>,
            x: Seq<char>,
            y: Seq<char>,
            z: Seq<char>,
            b: Seq<char>,
        |
            #[trigger] request_line(line, a, m, x + "?"@ + y + v + z, b) && without(x, ' ')
                && without(y, ' ') && without(z, ' ');
        lemma_query_part_asked(v, q, line, a, m, x, y, z, b);
    }
}

#[verifier::rlimit(50)]
#[verifier::spinoff_prover]
proof fn lemma_method(c: DefensiveCondition, q: Seq<char>, line: Seq<char>)
    requires
        c is MethodEquals,
    ensures
        demands(ossec_piece(c) + q, line) == (asked_line(c, line) && demands(q, line)),
{
    let v = leaf_value(c);
    let q0 = seq![')'] + q;
    let q1 = seq![' '] + q0;
    let q2 = literal(v) + q1;
    let q3 = seq!['\\', '"'] + q2;
    reveal_strlit("(?=.*\\\"");
    reveal_strlit(" )");
    reveal_strlit(" ");
    reveal_strlit("\"");
    assert(ossec_piece(c) + q =~= seq!['(', '?', '=', '.', '*'] + q3);
    lemma_demand(q3, line);
    if some_place(q3, line) {
        let (a, s) = choose|x: Seq<char>, t: Seq<char>|
            #[trigger] split(line, x, t) && looks_at(q3, t, line);
        lemma_escaped('"', q2, s, line);
        let s1 = s.skip(1);
        assert(s =~= "\""@ + s1);
        lemma_literal(v, q1, s1, line);
        lemma_read(v, s1);
        let s2 = s1.skip(v.len() as int);
        lemma_char(' ', q0, s2, line);
        let b = s2.skip(1);
        assert(s2 =~= " "@ + b);
        lemma_closed(q, b, line);
        assert(line =~= a + "\""@ + v + " "@ + b);
        assert(method_line(line, a, v, b));
    }
    if asked_line(c, line) && demands(q, line) {
        let (a, b) = choose|a: Seq<char>, b: Seq<char>| method_line(line, a, v, b);
        let s2 = " "@ + b;
        lemma_closed(q, b, line);
        assert(s2.skip(1) =~= b);
        lemma_char(' ', q0, s2, line);
        lemma_literal_read(v, q1, s2, line);
        let s = "\""@ + (v + s2);
        assert(s.skip(1) =~= v + s2);
        lemma_escaped('"', q2, s, line);
        assert(line =~= a + s);
        assert(split(line, a, s));
    }
}

/// Whether a line holds a quoted text and the start of another.
spec fn agent_opened(line: Seq<char>, a: Seq<char>, x: Seq<char>, t: Seq<char>) -> bool {
    without(x, '"') && line == a + "\""@ + x + "\" \""@ + t
}

spec fn some_agent(tail: Seq<char>, line: Seq<char>) -> bool {
    exists|a: Seq<char>, x: Seq<char>, t: Seq<char>|
        #[trigger] agent_opened(line, a, x, t) && looks_at(tail, t, line)
}

/// A quote, a space and a quote are read.
#[verifier::rlimit(50)]
#[verifier::spinoff_prover]
proof fn lemma_between_quotes(tail: Seq<char>, s: Seq<char>, line: Seq<char>)
    ensures
        looks_at(seq!['\\', '"', ' ', '\\', '"'] + tail, s, line) == (starts(s, "\" \""@)
            && looks_at(tail, s.skip(3), line)),
{
    reveal_strlit("\" \"");
    let w = "\" \""@;
    let q5 = seq!['\\', '"'] + tail;
    let q4 = seq![' '] + q5;
    assert(seq!['\\', '"', ' ', '\\', '"'] + tail =~= seq!['\\', '"'] + q4);
    lemma_escaped('"', q4, s, line);
    lemma_starts_step(s, w);
    if s.len() > 0 {
        lemma_char(' ', q5, s.skip(1), line);
        lemma_starts_step(s.skip(1), w.skip(1));
        if s.len() > 1 {
            let s2 = s.skip(1).skip(1);
            lemma_escaped('"', tail, s2, line);
            lemma_starts_step(s2, w.skip(1).skip(1));
            assert(w.skip(1).skip(1).skip(1) =~= Seq::<char>::empty());
            if s2.len() > 0 {
                assert(s2.skip(1).take(0) =~= Seq::<char>::empty());
                assert(s2.skip(1) =~= s.skip(3));
            }
        }
    }
}

spec fn agent_demand(tail: Seq<char>) -> Seq<char> {
    seq!['\\', '"'] + (seq!['[', '^', '\\', '"', ']', '*'] + (seq!['\\', '"', ' ', '\\', '"']
        + tail))
}

proof fn lemma_agent_shape(tail: Seq<char>)
    ensures
        "(?=.*\\\"[^\\\"]*\\\" \\\""@ + tail == seq!['(', '?', '=', '.', '*'] + agent_demand(tail),
{
    reveal_strlit("(?=.*\\\"[^\\\"]*\\\" \\\"");
    assert("(?=.*\\\"[^\\\"]*\\\" \\\""@ + tail =~= seq!['(', '?', '=', '.', '*'] + agent_demand(
        tail,
    ));
}

#[verifier::rlimit(50)]
#[verifier::spinoff_prover]
proof fn lemma_agent_found(tail: Seq<char>, line: Seq<char>)
    requires
        some_place(agent_demand(tail), line),
    ensures
        some_agent(tail, line),
{
    let q3 = seq!['\\', '"', ' ', '\\', '"'] + tail;
    let q2 = seq!['[', '^', '\\', '"', ']', '*'] + q3;
    let (a, s) = choose|x: Seq<char>, t: Seq<char>|
        #[trigger] split(line, x, t) && looks_at(agent_demand(tail), t, line);
    lemma_escaped('"', q2, s, line);
    let s1 = s.skip(1);
    assert(s == "\""@ + s1) by {
        reveal_strlit("\"");
        assert(s =~= "\""@ + s1);
    }
    lemma_quoteless(q3, s1, line);
    let (x, s2) = choose|x: Seq<char>, t: Seq<char>|
        #[trigger] split(s1, x, t) && without(x, '"') && looks_at(q3, t, line);
    lemma_between_quotes(tail, s2, line);
    let w = "\" \""@;
    lemma_read(w, s2);
    let t = s2.skip(3);
    assert(w.len() == 3) by {
        reveal_strlit("\" \"");
    }
    assert(a + ("\""@ + (x + (w + t))) =~= a + "\""@ + x + w + t);
    assert(agent_opened(line, a, x, t));
}

#[verifier::rlimit(50)]
#[verifier::spinoff_prover]
proof fn lemma_agent_asked(tail: Seq<char>, line: Seq<char>)
    requires
        some_agent(tail, line),
    ensures
        some_place(agent_demand(tail), line),
{
    let q3 = seq!['\\', '"', ' ', '\\', '"'] + tail;
    let q2 = seq!['[', '^', '\\', '"', ']', '*'] + q3;
    let (a, x, t) = choose|a: Seq<char>, x: Seq<char>, t: Seq<char>|
        #[trigger] agent_opened(line, a, x, t) && looks_at(tail, t, line);
    let w = "\" \""@;
    assert(w.len() == 3) by {
        reveal_strlit("\" \"");
    }
    let s2 = w + t;
    lemma_split(w, t);
    lemma_between_quotes(tail, s2, line);
    let s1 = x + s2;
    assert(split(s1, x, s2));
    lemma_quoteless(q3, s1, line);
    let s = "\""@ + s1;
    assert(s.len() > 0 && s[0] == '"' && s.skip(1) == s1) by {
        reveal_strlit("\"");
        assert(s.skip(1) =~= s1);
    }
    lemma_escaped('"', q2, s, line);
    assert(a + s =~= a + "\""@ + x + w + t);
    assert(split(line, a, s));
}

/// What starts the demand on an agent.
proof fn lemma_agent(tail: Seq<char>, line: Seq<char>)
    ensures
        demands("(?=.*\\\"[^\\\"]*\\\" \\\""@ + tail, line) == some_agent(tail, line),
{
    lemma_agent_shape(tail);
    lemma_demand(agent_demand(tail), line);
    if some_place(agent_demand(tail), line) {
        lemma_agent_found(tail, line);
    }
    if some_agent(tail, line) {
        lemma_agent_asked(tail, line);
    }
}

/// What ends the demand on an agent.
proof fn lemma_last_quote(q: Seq<char>, s: Seq<char>, line: Seq<char>)
    ensures
        looks_at(seq!['\\', '"', '$', ')'] + q, s, line) == (s == "\""@ && demands(q, line)),
{
    reveal_strlit("\"");
    assert(seq!['\\', '"', '$', ')'] + q =~= seq!['\\', '"'] + (seq!['$', ')'] + q));
    lemma_escaped('"', seq!['$', ')'] + q, s, line);
    if s.len() > 0 {
        lemma_at_end(q, s.skip(1), line);
        if s[0] == '"' && s.skip(1).len() == 0 {
            assert(s =~= "\""@);
        }
    }
}

#[verifier::rlimit(50)]
#[verifier::spinoff_prover]
proof fn lemma_agent_equals(c: DefensiveCondition, q: Seq<char>, line: Seq<char>)
    requires
        c is UserAgentEquals,
    ensures
        demands(ossec_piece(c) + q, line) == (asked_line(c, line) && demands(q, line)),
{
    let v = leaf_value(c);
    let end = seq!['\\', '"', '$', ')'] + q;
    let tail = literal(v) + end;
    reveal_strlit("\\\"$)");
    assert(ossec_piece(c) + q =~= "(?=.*\\\"[^\\\"]*\\\" \\\""@ + tail);
    lemma_agent(tail, line);
    if some_agent(tail, line) {
        let (a, x, t) = choose|a: Seq<char>, x: Seq<char>, t: Seq<char>|
            #[trigger] agent_opened(line, a, x, t) && looks_at(tail, t, line);
        lemma_literal(v, end, t, line);
        lemma_read(v, t);
        lemma_last_quote(q, t.skip(v.len() as int), line);
        assert(line =~= a + "\""@ + x + "\" \""@ + v + "\""@);
        assert(agent_line(line, a, x, v));
    }
    if asked_line(c, line) && demands(q, line) {
        let (a, x) = choose|a: Seq<char>, x: Seq<char>| agent_line(line, a, x, v);
        let t = v + "\""@;
        lemma_last_quote(q, "\""@, line);
        lemma_literal_read(v, end, "\""@, line);
        assert(line =~= a + "\""@ + x + "\" \""@ + t);
        assert(agent_opened(line, a, x, t));
    }
}

#[verifier::rlimit(50)]
#[verifier::spinoff_prover]
proof fn lemma_agent_contains(c: DefensiveCondition, q: Seq<char>, line: Seq<char>)
    requires
        c is UserAgentContains,
    ensures
        demands(ossec_piece(c) + q, line) == (asked_line(c, line) && demands(q, line)),
{
    let v = leaf_value(c);
    let end = seq!['\\', '"', '$', ')'] + q;
    let q2 = seq!['[', '^', '\\', '"', ']', '*'] + end;
    let q3 = literal(v) + q2;
    let tail = seq!['[', '^', '\\', '"', ']', '*'] + q3;
    reveal_strlit("(?=.*\\\"[^\\\"]*\\\" \\\"");
    reveal_strlit("(?=.*\\\"[^\\\"]*\\\" \\\"[^\\\"]*");
    reveal_strlit("[^\\\"]*\\\"$)");
    assert(ossec_piece(c) + q =~= "(?=.*\\\"[^\\\"]*\\\" \\\""@ + tail);
    lemma_agent(tail, line);
    if some_agent(tail, line) {
        let (a, x, t) = choose|a: Seq<char>, x: Seq<char>, t: Seq<char>|
            #[trigger] agent_opened(line, a, x, t) && looks_at(tail, t, line);
        lemma_quoteless(q3, t, line);
        let (y, s0) = choose|x: Seq<char>, u: Seq<char>|
            #[trigger] split(t, x, u) && without(x, '"') && looks_at(q3, u, line);
        lemma_literal(v, q2, s0, line);
        lemma_read(v, s0);
        let s1 = s0.skip(v.len() as int);
        lemma_quoteless(end, s1, line);
        let (z, u) = choose|x: Seq<char>, t: Seq<char>|
            #[trigger] split(s1, x, t) && without(x, '"') && looks_at(end, t, line);
        lemma_last_quote(q, u, line);
        assert(line =~= a + "\""@ + x + "\" \""@ + (y + v + z) + "\""@);
        assert(agent_line(line, a, x, y + v + z));
    }
    if asked_line(c, line) && demands(q, line) {
        let (a, x, y, z) = choose|a: Seq<char>, x: Seq<char>, y: Seq<char>, z: Seq<char>|
            #[trigger] agent_line(line, a, x, y + v + z) && without(y, '"') && without(z, '"');
        let u = "\""@;
        lemma_last_quote(q, u, line);
        assert(split(z + u, z, u));
        lemma_quoteless(end, z + u, line);
        lemma_literal_read(v, q2, z + u, line);
        let t = y + (v + (z + u));
        assert(split(t, y, v + (z + u)));
        lemma_quoteless(q3, t, line);
        assert(line =~= a + "\""@ + x + "\" \""@ + t);
        assert(agent_opened(line, a, x, t));
    }
}

proof fn lemma_piece(c: DefensiveCondition, q: Seq<char>, line: Seq<char>)
    requires
        ossec_shape(c),
        !(c is And),
    ensures
        demands(ossec_piece(c) + q, line) == (asked_line(c, line) && demands(q, line)),
{
    match c {
        DefensiveCondition::MethodEquals { .. } => lemma_method(c, q, line),
        DefensiveCondition::UriEquals { .. } => lemma_uri_equals(c, q, line),
        DefensiveCondition::UriContains { .. } => lemma_uri_contains(c, q, line),
        DefensiveCondition::UriStartsWith { .. } => lemma_uri_starts(c, q, line),
        DefensiveCondition::QueryEquals { .. } => lemma_query_equals(c, q, line),
        DefensiveCondition::QueryContains { .. } => lemma_query_contains(c, q, line),
        DefensiveCondition::UserAgentEquals { .. } => lemma_agent_equals(c, q, line),
        _ => lemma_agent_contains(c, q, line),
    }
}

proof fn lemma_pieces(c: DefensiveCondition, q: Seq<char>, line: Seq<char>)
    requires
        flattens(c),
    ensures
        demands(ossec_pieces(c) + q, line) == (asked_line(c, line) && demands(q, line)),
    decreases c, 0nat,
{
    match c {
        DefensiveCondition::And { conditions } => {
            lemma_pieces_up_to(conditions, conditions@.len(), q, line);
        },
        _ => {
            lemma_piece(c, q, line);
        },
    }
}

proof fn lemma_pieces_up_to(
    conditions: Vec<DefensiveCondition>,
    n: nat,
    q: Seq<char>,
    line: Seq<char>,
)
    requires
        n <= conditions@.len(),
        forall|i: int| 0 <= i < conditions@.len() ==> flattens(#[trigger] conditions@[i]),
    ensures
        demands(ossec_pieces_up_to(conditions, n) + q, line) == ((forall|i: int|
            0 <= i < n ==> asked_line(#[trigger] conditions@[i], line)) && demands(q, line)),
    decreases conditions, n,
{
    if n == 0 {
        assert(ossec_pieces_up_to(conditions, n) + q =~= q);
    } else {
        let last = conditions@[n - 1];
        assert(decreases_to!(conditions => last));
        let before = ossec_pieces_up_to(conditions, (n - 1) as nat);
        assert(ossec_pieces_up_to(conditions, n) + q =~= before + (ossec_pieces(last) + q));
        lemma_pieces_up_to(conditions, (n - 1) as nat, ossec_pieces(last) + q, line);
        lemma_pieces(last, q, line);
    }
}

/// A pattern selects the lines that its condition asks for, and no others: of a conjunction, those
/// that each of its parts asks for. Characters that mean something else in a pattern are matched
/// as they are.
pub proof fn patterns_select_the_lines_asked_for(c: DefensiveCondition, line: Seq<char>)
    requires
        flattens(c),
    ensures
        ossec_pattern_text(c) is Some,
        pattern_selects(ossec_pattern_text(c).unwrap(), line) <==> asked_line(c, line),
{
    reveal_strlit("^");
    reveal_strlit(".*$");
    let end = ".*$"@;
    let p = ossec_pattern_text(c).unwrap();
    assert(p.skip(1) =~= ossec_pieces(c) + end);
    lemma_pieces(c, end, line);
    assert(end =~= seq!['.', '*', '$']);
}

/// The text that an XML text stands for: an entity stands for its character, and every other
/// character for itself.
pub open spec fn xml_read(s: Seq<char>) -> Seq<char>
    decreases s.len(),
{
    if s.len() == 0 {
        seq![]
    } else if starts(s, seq!['&', 'a', 'm', 'p', ';']) {
        seq!['&'] + xml_read(s.skip(5))
    } else if starts(s, seq!['&', 'l', 't', ';']) {
        seq!['<'] + xml_read(s.skip(4))
    } else if starts(s, seq!['&', 'g', 't', ';']) {
        seq!['>'] + xml_read(s.skip(4))
    } else if starts(s, seq!['&', 'q', 'u', 'o', 't', ';']) {
        seq!['"'] + xml_read(s.skip(6))
    } else {
        seq![s[0]] + xml_read(s.skip(1))
    }
}

proof fn lemma_xml_char(c: char, t: Seq<char>)
    ensures
        xml_read(xml_escaped(c) + t) == seq![c] + xml_read(t),
{
    reveal_strlit("&amp;");
    reveal_strlit("&lt;");
    reveal_strlit("&gt;");
    reveal_strlit("&quot;");
    let amp = seq!['&', 'a', 'm', 'p', ';'];
    let lt = seq!['&', 'l', 't', ';'];
    let gt = seq!['&', 'g', 't', ';'];
    let quot = seq!['&', 'q', 'u', 'o', 't', ';'];
    assert("&amp;"@ =~= amp && "&lt;"@ =~= lt && "&gt;"@ =~= gt && "&quot;"@ =~= quot);
    let s = xml_escaped(c) + t;
    lemma_split(xml_escaped(c), t);
    if c == '&' {
        assert(s.skip(5) == t);
    } else {
        if starts(s, amp) {
            assert(s.take(5)[0] == amp[0] && s.take(5)[1] == amp[1]);
        }
        if starts(s, lt) && c != '<' {
            assert(s.take(4)[0] == lt[0] && s.take(4)[1] == lt[1]);
        }
        if starts(s, gt) && c != '>' {
            assert(s.take(4)[0] == gt[0] && s.take(4)[1] == gt[1]);
        }
        if starts(s, quot) && c != '"' {
            assert(s.take(6)[0] == quot[0] && s.take(6)[1] == quot[1]);
        }
        if c == '<' || c == '>' {
            assert(s.skip(4) == t);
        } else if c == '"' {
            assert(s.skip(6) == t);
        } else {
            assert(s.skip(1) == t);
        }
    }
}

/// A text in a rule is read back from it, and has none of the characters that would end it.
pub proof fn xml_texts_are_read_back(s: Seq<char>)
    ensures
        xml_read(replaced(s, |c: char| xml_escaped(c))) == s,
        without(replaced(s, |c: char| xml_escaped(c)), '<'),
        without(replaced(s, |c: char| xml_escaped(c)), '>'),
        without(replaced(s, |c: char| xml_escaped(c)), '"'),
    decreases s.len(),
{
    let f = |c: char| xml_escaped(c);
    if s.len() > 0 {
        let rest = s.skip(1);
        xml_texts_are_read_back(rest);
        lemma_replaced_first(s, f);
        lemma_xml_char(s[0], replaced(rest, f));
        assert(seq![s[0]] + rest =~= s);
        reveal_strlit("&amp;");
        reveal_strlit("&lt;");
        reveal_strlit("&gt;");
        reveal_strlit("&quot;");
    }
}

} // verus!
