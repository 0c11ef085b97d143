use vstd::prelude::*;
use crate::amount::{digit_val, digits_val, is_digit};

verus! {

/// A parsed boolean expression over numeric leaves.
///
/// A leaf names a requirement by its 0-based position in the role's
/// requirement list. The accepted connectives are `NOT`, `AND`, `NAND`,
/// `OR` and `NOR`, with parentheses.
pub enum LogicTree {
    Leaf(usize),
    Not(Box<LogicTree>),
    And(Box<LogicTree>, Box<LogicTree>),
    Or(Box<LogicTree>, Box<LogicTree>),
    Nand(Box<LogicTree>, Box<LogicTree>),
    Nor(Box<LogicTree>, Box<LogicTree>),
}

/// Three-valued conjunction: false wins, truth needs both, else unknown.
pub open spec fn and3(x: Option<bool>, y: Option<bool>) -> Option<bool> {
    if x == Some(false) || y == Some(false) {
        Some(false)
    } else if x == Some(true) && y == Some(true) {
        Some(true)
    } else {
        None
    }
}

/// Three-valued disjunction: truth wins, falsity needs both, else unknown.
pub open spec fn or3(x: Option<bool>, y: Option<bool>) -> Option<bool> {
    if x == Some(true) || y == Some(true) {
        Some(true)
    } else if x == Some(false) && y == Some(false) {
        Some(false)
    } else {
        None
    }
}

/// Three-valued negation: unknown stays unknown.
pub open spec fn not3(x: Option<bool>) -> Option<bool> {
    match x {
        Some(v) => Some(!v),
        None => None,
    }
}

/// The verdict of a tree over per-leaf verdicts, with unknowns propagating
/// as strong Kleene logic has it. A leaf outside the terminal list is
/// unknown.
pub open spec fn spec_eval(t: LogicTree, term: Seq<Option<bool>>) -> Option<bool>
    decreases t,
{
    match t {
        LogicTree::Leaf(i) => if i < term.len() {
            term[i as int]
        } else {
            None
        },
        LogicTree::Not(a) => not3(spec_eval(*a, term)),
        LogicTree::And(a, b) => and3(spec_eval(*a, term), spec_eval(*b, term)),
        LogicTree::Or(a, b) => or3(spec_eval(*a, term), spec_eval(*b, term)),
        LogicTree::Nand(a, b) => not3(and3(spec_eval(*a, term), spec_eval(*b, term))),
        LogicTree::Nor(a, b) => not3(or3(spec_eval(*a, term), spec_eval(*b, term))),
    }
}

impl LogicTree {
    /// Evaluates this tree over one verdict per requirement position,
    /// exactly as `spec_eval` states.
    pub fn evaluate(&self, terminals: &Vec<Option<bool>>) -> (r: Option<bool>)
        ensures
            r == spec_eval(*self, terminals@),
        decreases *self,
    {
        match self {
            LogicTree::Leaf(i) => {
                if *i < terminals.len() {
                    terminals[*i]
                } else {
                    None
                }
            },
            LogicTree::Not(a) => {
                match a.evaluate(terminals) {
                    Some(v) => Some(!v),
                    None => None,
                }
            },
            LogicTree::And(a, b) => {
                let x = a.evaluate(terminals);
                let y = b.evaluate(terminals);
                match (x, y) {
                    (Some(false), _) => Some(false),
                    (_, Some(false)) => Some(false),
                    (Some(true), Some(true)) => Some(true),
                    _ => None,
                }
            },
            LogicTree::Or(a, b) => {
                let x = a.evaluate(terminals);
                let y = b.evaluate(terminals);
                match (x, y) {
                    (Some(true), _) => Some(true),
                    (_, Some(true)) => Some(true),
                    (Some(false), Some(false)) => Some(false),
                    _ => None,
                }
            },
            LogicTree::Nand(a, b) => {
                let x = a.evaluate(terminals);
                let y = b.evaluate(terminals);
                match (x, y) {
                    (Some(false), _) => Some(true),
                    (_, Some(false)) => Some(true),
                    (Some(true), Some(true)) => Some(false),
                    _ => None,
                }
            },
            LogicTree::Nor(a, b) => {
                let x = a.evaluate(terminals);
                let y = b.evaluate(terminals);
                match (x, y) {
                    (Some(true), _) => Some(false),
                    (_, Some(true)) => Some(false),
                    (Some(false), Some(false)) => Some(true),
                    _ => None,
                }
            },
        }
    }

    /// Parses a logic expression text, exactly as `spec_parse_logic` states.
    pub fn parse(s: &str) -> (r: Option<LogicTree>)
        ensures
            r == spec_parse_logic(s@),
    {
        let toks = match tokenize(s) {
            Some(t) => t,
            None => {
                return None;
            },
        };
        let fuel: u128 = (toks.len() as u128) * 4 + 8;
        match parse_or(&toks, 0, fuel) {
            Some((t, p)) => {
                if p == toks.len() {
                    Some(t)
                } else {
                    None
                }
            },
            None => None,
        }
    }
}

/// One lexical item of a logic expression.
#[derive(PartialEq, Eq, Structural, Clone, Copy, Debug)]
pub enum Token {
    LParen,
    RParen,
    Num(usize),
    OpNot,
    OpAnd,
    OpOr,
    OpNand,
    OpNor,
}

pub open spec fn is_space(c: char) -> bool {
    c == ' ' || c == '\t' || c == '\r' || c == '\n'
}

pub open spec fn is_upper(c: char) -> bool {
    65 <= c as u32 <= 90
}

/// Length of the longest prefix of `s` whose characters satisfy `pred`.
pub open spec fn run_len(s: Seq<char>, pred: spec_fn(char) -> bool) -> nat
    decreases s.len(),
{
    if s.len() > 0 && pred(s[0]) {
        1 + run_len(s.drop_first(), pred)
    } else {
        0
    }
}

/// The keyword token written by a run of capital letters, if any.
pub open spec fn spec_keyword(s: Seq<char>) -> Option<Token> {
    if s == seq!['N', 'O', 'T'] {
        Some(Token::OpNot)
    } else if s == seq!['A', 'N', 'D'] {
        Some(Token::OpAnd)
    } else if s == seq!['O', 'R'] {
        Some(Token::OpOr)
    } else if s == seq!['N', 'A', 'N', 'D'] {
        Some(Token::OpNand)
    } else if s == seq!['N', 'O', 'R'] {
        Some(Token::OpNor)
    } else {
        None
    }
}

/// Prefixes a token onto the outcome of tokenizing the rest.
pub open spec fn tok_result(prefix: Seq<Token>, rest: Option<Seq<Token>>) -> Option<Seq<Token>> {
    match rest {
        Some(r) => Some(prefix + r),
        None => None,
    }
}

/// The token run of a logic text: spaces separate, parentheses stand alone,
/// digit runs are leaf numbers, capital runs are keywords. Any other
/// character, an unknown keyword, or a leaf number over `usize::MAX`
/// refuses the text.
pub open spec fn spec_tokenize(s: Seq<char>) -> Option<Seq<Token>>
    decreases s.len(),
{
    if s.len() == 0 {
        Some(Seq::empty())
    } else if is_space(s[0]) {
        spec_tokenize(s.drop_first())
    } else if s[0] == '(' {
        tok_result(seq![Token::LParen], spec_tokenize(s.drop_first()))
    } else if s[0] == ')' {
        tok_result(seq![Token::RParen], spec_tokenize(s.drop_first()))
    } else if is_digit(s[0]) {
        // A run never outruns the text, so the cap never bites; it only
        // keeps the recursion measure meaningful.
        let k0 = run_len(s, |c: char| is_digit(c));
        let k = if k0 <= s.len() {
            k0
        } else {
            s.len()
        };
        if digits_val(s.take(k as int)) <= usize::MAX {
            tok_result(
                seq![Token::Num(digits_val(s.take(k as int)) as usize)],
                spec_tokenize(s.skip(k as int)),
            )
        } else {
            None
        }
    } else if is_upper(s[0]) {
        let k0 = run_len(s, |c: char| is_upper(c));
        let k = if k0 <= s.len() {
            k0
        } else {
            s.len()
        };
        match spec_keyword(s.take(k as int)) {
            Some(t) => tok_result(seq![t], spec_tokenize(s.skip(k as int))),
            None => None,
        }
    } else {
        None
    }
}

proof fn lemma_run_len_is(s: Seq<char>, pred: spec_fn(char) -> bool, k: int)
    requires
        0 <= k <= s.len(),
        forall|j: int| 0 <= j < k ==> pred(#[trigger] s[j]),
        k == s.len() || !pred(s[k]),
    ensures
        run_len(s, pred) == k,
    decreases s.len(),
{
    if k == 0 {
    } else {
        assert(pred(s[0]));
        assert(forall|j: int| 0 <= j < k - 1 ==> s.drop_first()[j] == #[trigger] s[j + 1]);
        lemma_run_len_is(s.drop_first(), pred, k - 1);
    }
}

proof fn lemma_tok_result_assoc(a: Seq<Token>, b: Seq<Token>, x: Option<Seq<Token>>)
    ensures
        tok_result(a, tok_result(b, x)) == tok_result(a + b, x),
{
    match x {
        Some(r) => {
            assert(a + (b + r) =~= (a + b) + r);
        },
        None => {},
    }
}

/// Scans `s` into tokens, exactly as `spec_tokenize` states.
fn tokenize(s: &str) -> (r: Option<Vec<Token>>)
    ensures
        match r {
            Some(v) => spec_tokenize(s@) == Some(v@),
            None => spec_tokenize(s@) is None,
        },
{
    let n = s.unicode_len();
    let mut out: Vec<Token> = Vec::new();
    let mut i: usize = 0;
    assert(out@ + spec_tokenize(s@)->0 =~= spec_tokenize(s@)->0);
    assert(s@.skip(0) =~= s@);
    while i < n
        invariant
            i <= n == s@.len(),
            spec_tokenize(s@) == tok_result(out@, spec_tokenize(s@.skip(i as int))),
        decreases n - i,
    {
        let ghost rest = s@.skip(i as int);
        assert(rest.len() == n - i);
        assert(rest[0] == s@[i as int]);
        assert(rest.drop_first() =~= s@.skip(i as int + 1));
        let c = s.get_char(i);
        let cv = c as u32;
        if c == ' ' || c == '\t' || c == '\r' || c == '\n' {
            i = i + 1;
        } else if c == '(' {
            out.push(Token::LParen);
            proof {
                lemma_tok_result_assoc(
                    out@.drop_last(),
                    seq![Token::LParen],
                    spec_tokenize(s@.skip(i as int + 1)),
                );
                assert(out@.drop_last() + seq![Token::LParen] =~= out@);
            }
            i = i + 1;
        } else if c == ')' {
            out.push(Token::RParen);
            proof {
                lemma_tok_result_assoc(
                    out@.drop_last(),
                    seq![Token::RParen],
                    spec_tokenize(s@.skip(i as int + 1)),
                );
                assert(out@.drop_last() + seq![Token::RParen] =~= out@);
            }
            i = i + 1;
        } else if 48 <= cv && cv <= 57 {
            // A run of digits: a leaf number.
            let j = scan_digits(s, i);
            let ghost run = rest.take(run_len(rest, |c: char| is_digit(c)) as int);
            proof {
                assert(forall|p: int| 0 <= p < j - i ==> is_digit(#[trigger] rest[p]));
                assert(j < n ==> rest[j - i] == s@[j as int]);
                lemma_run_len_is(rest, |c: char| is_digit(c), j - i);
                assert(run =~= rest.take(j - i));
                assert(s@.subrange(i as int, j as int) =~= run);
            }
            let v = match digit_run_parse(s, i, j) {
                Some(v) => v,
                None => {
                    return None;
                },
            };
            out.push(Token::Num(v));
            proof {
                assert(rest.skip(j - i) =~= s@.skip(j as int));
                lemma_tok_result_assoc(
                    out@.drop_last(),
                    seq![Token::Num(v)],
                    spec_tokenize(s@.skip(j as int)),
                );
                assert(out@.drop_last() + seq![Token::Num(v)] =~= out@);
            }
            i = j;
        } else if 65 <= cv && cv <= 90 {
            // A run of capital letters: a keyword.
            let j = scan_uppers(s, i);
            let ghost run = rest.take(run_len(rest, |c: char| is_upper(c)) as int);
            proof {
                assert(forall|p: int| 0 <= p < j - i ==> is_upper(#[trigger] rest[p]));
                assert(j < n ==> rest[j - i] == s@[j as int]);
                lemma_run_len_is(rest, |c: char| is_upper(c), j - i);
                assert(run =~= rest.take(j - i));
                assert(s@.subrange(i as int, j as int) =~= run);
            }
            let tok = match keyword_token(s, i, j) {
                Some(t) => t,
                None => {
                    return None;
                },
            };
            out.push(tok);
            proof {
                assert(rest.skip(j - i) =~= s@.skip(j as int));
                lemma_tok_result_assoc(
                    out@.drop_last(),
                    seq![tok],
                    spec_tokenize(s@.skip(j as int)),
                );
                assert(out@.drop_last() + seq![tok] =~= out@);
            }
            i = j;
        } else {
            return None;
        }
    }
    assert(s@.skip(n as int) =~= Seq::<char>::empty());
    assert(out@ + Seq::<Token>::empty() =~= out@);
    Some(out)
}

/// The end of the digit run starting at `from`.
fn scan_digits(s: &str, from: usize) -> (r: usize)
    requires
        from <= s@.len(),
    ensures
        from <= r <= s@.len(),
        forall|p: int| from <= p < r ==> is_digit(#[trigger] s@[p]),
        r < s@.len() ==> !is_digit(s@[r as int]),
{
    let n = s.unicode_len();
    let mut j: usize = from;
    while j < n
        invariant
            from <= j <= n == s@.len(),
            forall|p: int| from <= p < j ==> is_digit(#[trigger] s@[p]),
        decreases n - j,
    {
        let d = s.get_char(j);
        let dv = d as u32;
        if dv < 48 || dv > 57 {
            return j;
        }
        j = j + 1;
    }
    n
}

/// The end of the capital-letter run starting at `from`.
fn scan_uppers(s: &str, from: usize) -> (r: usize)
    requires
        from <= s@.len(),
    ensures
        from <= r <= s@.len(),
        forall|p: int| from <= p < r ==> is_upper(#[trigger] s@[p]),
        r < s@.len() ==> !is_upper(s@[r as int]),
{
    let n = s.unicode_len();
    let mut j: usize = from;
    while j < n
        invariant
            from <= j <= n == s@.len(),
            forall|p: int| from <= p < j ==> is_upper(#[trigger] s@[p]),
        decreases n - j,
    {
        let d = s.get_char(j);
        let dv = d as u32;
        if dv < 65 || dv > 90 {
            return j;
        }
        j = j + 1;
    }
    n
}

/// The value of the digit run `[i, j)`, or nothing when it is over
/// `usize::MAX`.
fn digit_run_parse(s: &str, i: usize, j: usize) -> (r: Option<usize>)
    requires
        i <= j <= s@.len(),
        forall|p: int| i <= p < j ==> is_digit(#[trigger] s@[p]),
    ensures
        match r {
            Some(v) => v == digits_val(s@.subrange(i as int, j as int)),
            None => digits_val(s@.subrange(i as int, j as int)) > usize::MAX,
        },
{
    let ghost run = s@.subrange(i as int, j as int);
    let mut acc: usize = 0;
    let mut p: usize = i;
    while p < j
        invariant
            i <= p <= j <= s@.len(),
            run == s@.subrange(i as int, j as int),
            forall|q: int| i <= q < j ==> is_digit(#[trigger] s@[q]),
            acc == digits_val(run.take(p - i)),
        decreases j - p,
    {
        let d = s.get_char(p);
        let dv = d as u32;
        assert(run[p - i] == s@[p as int]);
        proof {
            lemma_digits_take_step_here(run, p - i);
        }
        let next = match acc.checked_mul(10) {
            Some(a) => a.checked_add((dv - 48) as usize),
            None => None,
        };
        acc = match next {
            Some(a) => a,
            None => {
                proof {
                    assert(forall|q: int| 0 <= q < run.len() ==> is_digit(#[trigger] run[q]));
                    lemma_digit_prefix_bound(run, p + 1 - i);
                }
                return None;
            },
        };
        p = p + 1;
    }
    assert(run.take(j - i) =~= run);
    Some(acc)
}

proof fn lemma_digits_take_step_here(s: Seq<char>, i: int)
    requires
        0 <= i < s.len(),
    ensures
        digits_val(s.take(i + 1)) == digits_val(s.take(i)) * 10 + digit_val(s[i]),
{
    assert(s.take(i + 1).drop_last() =~= s.take(i));
    assert(s.take(i + 1).last() == s[i]);
}

/// When a prefix of a digit run exceeds the bound, so does any extension.
proof fn lemma_digit_prefix_bound(s: Seq<char>, i: int)
    requires
        0 <= i <= s.len(),
        forall|j: int| 0 <= j < s.len() ==> is_digit(#[trigger] s[j]),
        digits_val(s.take(i)) > usize::MAX,
    ensures
        digits_val(s) > usize::MAX,
    decreases s.len() - i,
{
    if i == s.len() {
        assert(s.take(i) =~= s);
    } else {
        lemma_digits_take_step_here(s, i);
        lemma_digit_prefix_bound(s, i + 1);
    }
}

/// The keyword written by the capital run `[i, j)`, as `spec_keyword` has it.
fn keyword_token(s: &str, i: usize, j: usize) -> (r: Option<Token>)
    requires
        i <= j <= s@.len(),
    ensures
        r == spec_keyword(s@.subrange(i as int, j as int)),
{
    let ghost run = s@.subrange(i as int, j as int);
    let len = j - i;
    if len == 2 {
        let c0 = s.get_char(i);
        let c1 = s.get_char(i + 1);
        if c0 == 'O' && c1 == 'R' {
            assert(run =~= seq!['O', 'R']);
            Some(Token::OpOr)
        } else {
            assert(run.len() == 2 && run[0] == c0 && run[1] == c1);
            assert(seq!['O', 'R'][0] == 'O' && seq!['O', 'R'][1] == 'R');
            assert(run != seq!['O', 'R']);
            None
        }
    } else if len == 3 {
        let c0 = s.get_char(i);
        let c1 = s.get_char(i + 1);
        let c2 = s.get_char(i + 2);
        if c0 == 'N' && c1 == 'O' && c2 == 'T' {
            assert(run =~= seq!['N', 'O', 'T']);
            Some(Token::OpNot)
        } else if c0 == 'A' && c1 == 'N' && c2 == 'D' {
            assert(run =~= seq!['A', 'N', 'D']);
            Some(Token::OpAnd)
        } else if c0 == 'N' && c1 == 'O' && c2 == 'R' {
            assert(run =~= seq!['N', 'O', 'R']);
            Some(Token::OpNor)
        } else {
            assert(run.len() == 3 && run[0] == c0 && run[1] == c1 && run[2] == c2);
            assert(seq!['N', 'O', 'T'][0] == 'N' && seq!['N', 'O', 'T'][1] == 'O' && seq![
                'N', 'O', 'T'][2] == 'T');
            assert(seq!['A', 'N', 'D'][0] == 'A' && seq!['A', 'N', 'D'][1] == 'N' && seq![
                'A', 'N', 'D'][2] == 'D');
            assert(seq!['N', 'O', 'R'][0] == 'N' && seq!['N', 'O', 'R'][1] == 'O' && seq![
                'N', 'O', 'R'][2] == 'R');
            assert(run != seq!['N', 'O', 'T'] && run != seq!['A', 'N', 'D'] && run != seq![
                'N', 'O', 'R']);
            None
        }
    } else if len == 4 {
        let c0 = s.get_char(i);
        let c1 = s.get_char(i + 1);
        let c2 = s.get_char(i + 2);
        let c3 = s.get_char(i + 3);
        if c0 == 'N' && c1 == 'A' && c2 == 'N' && c3 == 'D' {
            assert(run =~= seq!['N', 'A', 'N', 'D']);
            Some(Token::OpNand)
        } else {
            assert(run.len() == 4 && run[0] == c0 && run[1] == c1 && run[2] == c2 && run[3] == c3);
            assert(seq!['N', 'A', 'N', 'D'][0] == 'N' && seq!['N', 'A', 'N', 'D'][1] == 'A'
                && seq!['N', 'A', 'N', 'D'][2] == 'N' && seq!['N', 'A', 'N', 'D'][3] == 'D');
            assert(run != seq!['N', 'A', 'N', 'D']);
            None
        }
    } else {
        assert(run.len() != 2 && run.len() != 3 && run.len() != 4);
        None
    }
}

/// Fuel that always suffices for a token run's recursive descent.
pub open spec fn parse_fuel(toks: Seq<Token>) -> nat {
    4 * toks.len() + 8
}

/// What parsing a token run yields: the tree of the whole run, if the run
/// is one well-formed expression.
pub open spec fn spec_parse_tokens(toks: Seq<Token>) -> Option<LogicTree> {
    match spec_or_expr(toks, 0, parse_fuel(toks)) {
        Some((t, p)) => if p == toks.len() {
            Some(t)
        } else {
            None
        },
        None => None,
    }
}

/// What parsing a logic text yields: tokens first, then one expression
/// spanning them all.
pub open spec fn spec_parse_logic(s: Seq<char>) -> Option<LogicTree> {
    match spec_tokenize(s) {
        Some(toks) => spec_parse_tokens(toks),
        None => None,
    }
}

/// An `OR`/`NOR` level expression starting at `pos`: `AND` levels joined
/// left-associatively.
pub open spec fn spec_or_expr(toks: Seq<Token>, pos: int, fuel: nat) -> Option<(LogicTree, int)>
    decreases fuel,
{
    if fuel == 0 {
        None
    } else {
        match spec_and_expr(toks, pos, (fuel - 1) as nat) {
            Some((left, p)) => spec_or_tail(left, toks, p, (fuel - 1) as nat),
            None => None,
        }
    }
}

pub open spec fn spec_or_tail(acc: LogicTree, toks: Seq<Token>, pos: int, fuel: nat) -> Option<
    (LogicTree, int),
>
    decreases fuel,
{
    if fuel == 0 {
        None
    } else if 0 <= pos < toks.len() && (toks[pos] == Token::OpOr || toks[pos] == Token::OpNor) {
        match spec_and_expr(toks, pos + 1, (fuel - 1) as nat) {
            Some((right, p)) => {
                let node = if toks[pos] == Token::OpOr {
                    LogicTree::Or(Box::new(acc), Box::new(right))
                } else {
                    LogicTree::Nor(Box::new(acc), Box::new(right))
                };
                spec_or_tail(node, toks, p, (fuel - 1) as nat)
            },
            None => None,
        }
    } else {
        Some((acc, pos))
    }
}

/// An `AND`/`NAND` level expression: unary expressions joined
/// left-associatively.
pub open spec fn spec_and_expr(toks: Seq<Token>, pos: int, fuel: nat) -> Option<(LogicTree, int)>
    decreases fuel,
{
    if fuel == 0 {
        None
    } else {
        match spec_unary(toks, pos, (fuel - 1) as nat) {
            Some((left, p)) => spec_and_tail(left, toks, p, (fuel - 1) as nat),
            None => None,
        }
    }
}

pub open spec fn spec_and_tail(acc: LogicTree, toks: Seq<Token>, pos: int, fuel: nat) -> Option<
    (LogicTree, int),
>
    decreases fuel,
{
    if fuel == 0 {
        None
    } else if 0 <= pos < toks.len() && (toks[pos] == Token::OpAnd || toks[pos] == Token::OpNand) {
        match spec_unary(toks, pos + 1, (fuel - 1) as nat) {
            Some((right, p)) => {
                let node = if toks[pos] == Token::OpAnd {
                    LogicTree::And(Box::new(acc), Box::new(right))
                } else {
                    LogicTree::Nand(Box::new(acc), Box::new(right))
                };
                spec_and_tail(node, toks, p, (fuel - 1) as nat)
            },
            None => None,
        }
    } else {
        Some((acc, pos))
    }
}

/// A `NOT`-prefixed expression or an atom.
pub open spec fn spec_unary(toks: Seq<Token>, pos: int, fuel: nat) -> Option<(LogicTree, int)>
    decreases fuel,
{
    if fuel == 0 {
        None
    } else if 0 <= pos < toks.len() && toks[pos] == Token::OpNot {
        match spec_unary(toks, pos + 1, (fuel - 1) as nat) {
            Some((inner, p)) => Some((LogicTree::Not(Box::new(inner)), p)),
            None => None,
        }
    } else {
        spec_atom(toks, pos, (fuel - 1) as nat)
    }
}

/// A leaf number or a parenthesised expression.
pub open spec fn spec_atom(toks: Seq<Token>, pos: int, fuel: nat) -> Option<(LogicTree, int)>
    decreases fuel,
{
    if fuel == 0 {
        None
    } else if 0 <= pos < toks.len() {
        match toks[pos] {
            Token::Num(v) => Some((LogicTree::Leaf(v), pos + 1)),
            Token::LParen => match spec_or_expr(toks, pos + 1, (fuel - 1) as nat) {
                Some((inner, p)) => if 0 <= p < toks.len() && toks[p] == Token::RParen {
                    Some((inner, p + 1))
                } else {
                    None
                },
                None => None,
            },
            _ => None,
        }
    } else {
        None
    }
}

fn parse_or(toks: &Vec<Token>, pos: usize, fuel: u128) -> (r: Option<(LogicTree, usize)>)
    requires
        pos <= toks@.len(),
    ensures
        match r {
            Some(pair) => spec_or_expr(toks@, pos as int, fuel as nat) == Some(
                (pair.0, pair.1 as int)) && pair.1 <= toks@.len(),
            None => spec_or_expr(toks@, pos as int, fuel as nat) is None,
        },
    decreases fuel,
{
    if fuel == 0 {
        return None;
    }
    match parse_and(toks, pos, fuel - 1) {
        Some((left, p)) => parse_or_tail(left, toks, p, fuel - 1),
        None => None,
    }
}

fn parse_or_tail(acc: LogicTree, toks: &Vec<Token>, pos: usize, fuel: u128) -> (r: Option<
    (LogicTree, usize),
>)
    requires
        pos <= toks@.len(),
    ensures
        match r {
            Some(pair) => spec_or_tail(acc, toks@, pos as int, fuel as nat) == Some(
                (pair.0, pair.1 as int)) && pair.1 <= toks@.len(),
            None => spec_or_tail(acc, toks@, pos as int, fuel as nat) is None,
        },
    decreases fuel,
{
    if fuel == 0 {
        return None;
    }
    if pos < toks.len() && (toks[pos] == Token::OpOr || toks[pos] == Token::OpNor) {
        let is_or = toks[pos] == Token::OpOr;
        match parse_and(toks, pos + 1, fuel - 1) {
            Some((right, p)) => {
                let node = if is_or {
                    LogicTree::Or(Box::new(acc), Box::new(right))
                } else {
                    LogicTree::Nor(Box::new(acc), Box::new(right))
                };
                parse_or_tail(node, toks, p, fuel - 1)
            },
            None => None,
        }
    } else {
        Some((acc, pos))
    }
}

fn parse_and(toks: &Vec<Token>, pos: usize, fuel: u128) -> (r: Option<(LogicTree, usize)>)
    requires
        pos <= toks@.len(),
    ensures
        match r {
            Some(pair) => spec_and_expr(toks@, pos as int, fuel as nat) == Some(
                (pair.0, pair.1 as int)) && pair.1 <= toks@.len(),
            None => spec_and_expr(toks@, pos as int, fuel as nat) is None,
        },
    decreases fuel,
{
    if fuel == 0 {
        return None;
    }
    match parse_unary(toks, pos, fuel - 1) {
        Some((left, p)) => parse_and_tail(left, toks, p, fuel - 1),
        None => None,
    }
}

fn parse_and_tail(acc: LogicTree, toks: &Vec<Token>, pos: usize, fuel: u128) -> (r: Option<
    (LogicTree, usize),
>)
    requires
        pos <= toks@.len(),
    ensures
        match r {
            Some(pair) => spec_and_tail(acc, toks@, pos as int, fuel as nat) == Some(
                (pair.0, pair.1 as int)) && pair.1 <= toks@.len(),
            None => spec_and_tail(acc, toks@, pos as int, fuel as nat) is None,
        },
    decreases fuel,
{
    if fuel == 0 {
        return None;
    }
    if pos < toks.len() && (toks[pos] == Token::OpAnd || toks[pos] == Token::OpNand) {
        let is_and = toks[pos] == Token::OpAnd;
        match parse_unary(toks, pos + 1, fuel - 1) {
            Some((right, p)) => {
                let node = if is_and {
                    LogicTree::And(Box::new(acc), Box::new(right))
                } else {
                    LogicTree::Nand(Box::new(acc), Box::new(right))
                };
                parse_and_tail(node, toks, p, fuel - 1)
            },
            None => None,
        }
    } else {
        Some((acc, pos))
    }
}

fn parse_unary(toks: &Vec<Token>, pos: usize, fuel: u128) -> (r: Option<(LogicTree, usize)>)
    requires
        pos <= toks@.len(),
    ensures
        match r {
            Some(pair) => spec_unary(toks@, pos as int, fuel as nat) == Some(
                (pair.0, pair.1 as int)) && pair.1 <= toks@.len(),
            None => spec_unary(toks@, pos as int, fuel as nat) is None,
        },
    decreases fuel,
{
    if fuel == 0 {
        return None;
    }
    if pos < toks.len() && toks[pos] == Token::OpNot {
        match parse_unary(toks, pos + 1, fuel - 1) {
            Some((inner, p)) => Some((LogicTree::Not(Box::new(inner)), p)),
            None => None,
        }
    } else {
        parse_atom(toks, pos, fuel - 1)
    }
}

fn parse_atom(toks: &Vec<Token>, pos: usize, fuel: u128) -> (r: Option<(LogicTree, usize)>)
    requires
        pos <= toks@.len(),
    ensures
        match r {
            Some(pair) => spec_atom(toks@, pos as int, fuel as nat) == Some(
                (pair.0, pair.1 as int)) && pair.1 <= toks@.len(),
            None => spec_atom(toks@, pos as int, fuel as nat) is None,
        },
    decreases fuel,
{
    if fuel == 0 {
        return None;
    }
    if pos < toks.len() {
        match toks[pos] {
            Token::Num(v) => Some((LogicTree::Leaf(v), pos + 1)),
            Token::LParen => match parse_or(toks, pos + 1, fuel - 1) {
                Some((inner, p)) => {
                    if p < toks.len() && toks[p] == Token::RParen {
                        Some((inner, p + 1))
                    } else {
                        None
                    }
                },
                None => None,
            },
            _ => None,
        }
    } else {
        None
    }
}

/// The one-leaf expression: the text `0` parses to leaf number zero.
pub proof fn lemma_parse_single_leaf()
    ensures
        spec_parse_logic("0"@) == Some(LogicTree::Leaf(0usize)),
{
    reveal_strlit("0");
    let s = "0"@;
    assert(s.len() == 1 && s[0] == '0');
    assert(is_digit(s[0]));
    assert(s.drop_first().len() == 0);
    assert(run_len(s, |c: char| is_digit(c)) == 1) by {
        reveal_with_fuel(run_len, 3);
    }
    assert(s.take(1) =~= s);
    assert(digits_val(s) == 0) by {
        reveal_with_fuel(digits_val, 3);
        assert(s.drop_last().len() == 0);
        assert(digit_val(s.last()) == 0);
    }
    assert(s.skip(1) =~= Seq::<char>::empty());
    assert(spec_tokenize(s.skip(1)) == Some(Seq::<Token>::empty()));
    let toks = seq![Token::Num(0usize)];
    assert(spec_tokenize(s) == Some(toks)) by {
        assert(seq![Token::Num(0usize)] + Seq::<Token>::empty() =~= toks);
    }
    assert(parse_fuel(toks) == 12);
    assert(spec_atom(toks, 0, 9) == Some((LogicTree::Leaf(0usize), 1int)));
    assert(spec_unary(toks, 0, 10) == Some((LogicTree::Leaf(0usize), 1int)));
    assert(spec_and_tail(LogicTree::Leaf(0usize), toks, 1, 10) == Some(
        (LogicTree::Leaf(0usize), 1int),
    ));
    assert(spec_and_expr(toks, 0, 11) == Some((LogicTree::Leaf(0usize), 1int)));
    assert(spec_or_tail(LogicTree::Leaf(0usize), toks, 1, 11) == Some(
        (LogicTree::Leaf(0usize), 1int),
    ));
    assert(spec_or_expr(toks, 0, 12) == Some((LogicTree::Leaf(0usize), 1int)));
    assert(spec_parse_tokens(toks) == Some(LogicTree::Leaf(0usize)));
}

} // verus!
