use crate::digits::{
    all_digits, decimal, digits_less, digits_value, is_all_digits, parse_below, push_decimal,
};
use crate::text::{chars_of, string_of};
use vstd::prelude::*;

verus! {

/// Why a template cannot be filled in.
#[derive(Clone, Copy, Debug, PartialEq, Eq, Structural)]
pub enum InjectError {
    /// The template ends with a single `$`.
    TrailingDollar,
}

/// Whether a placeholder without brackets goes on with `c`: a letter or
/// digit of ASCII, `_`, `@` or `#`.
pub open spec fn is_token_char_spec(c: char) -> bool {
    ('a' <= c && c <= 'z') || ('A' <= c && c <= 'Z') || ('0' <= c && c <= '9') || c == '_' || c
        == '@' || c == '#'
}

/// Whether a placeholder without brackets goes on with `c`.
pub fn is_token_char(c: char) -> (r: bool)
    ensures
        r == is_token_char_spec(c),
{
    ('a' <= c && c <= 'z') || ('A' <= c && c <= 'Z') || ('0' <= c && c <= '9') || c == '_' || c
        == '@' || c == '#'
}

/// How many characters at the front of `s` a placeholder without brackets is made of.
pub open spec fn token_len(s: Seq<char>) -> nat
    decreases s.len(),
{
    if s.len() > 0 && is_token_char_spec(s[0]) {
        1 + token_len(s.skip(1))
    } else {
        0
    }
}

/// How many characters stand in front of the first `stop` in `s`; all of
/// them where there is none.
pub open spec fn len_until(s: Seq<char>, stop: char) -> nat
    decreases s.len(),
{
    if s.len() > 0 && s[0] != stop {
        1 + len_until(s.skip(1), stop)
    } else {
        0
    }
}

/// The texts from `from` up to `to`, with blanks between them.
pub open spec fn joined(args: Seq<Seq<char>>, from: int, to: int) -> Seq<char>
    decreases to - from,
{
    if from < 0 || to > args.len() || from >= to {
        Seq::empty()
    } else if from + 1 == to {
        args[from]
    } else {
        joined(args, from, to - 1) + seq![' '] + args[to - 1]
    }
}

/// The value of the first variable named `key`; empty where there is none.
pub open spec fn lookup(vars: Seq<(Seq<char>, Seq<char>)>, key: Seq<char>) -> Seq<char>
    decreases vars.len(),
{
    if vars.len() == 0 {
        Seq::empty()
    } else if vars[0].0 == key {
        vars[0].1
    } else {
        lookup(vars.skip(1), key)
    }
}

/// The bounds of the range that `token` asks for among `n` arguments: digits,
/// a colon, and digits or nothing, which stands for the last argument. There
/// is a range only where the first bound is below the last.
pub open spec fn range_bounds(token: Seq<char>, n: nat) -> Option<(int, int)> {
    let p = len_until(token, ':') as int;
    let lower = token.take(p);
    let upper = token.skip(p + 1);
    if 1 <= p && p < token.len() && all_digits(lower) && all_digits(upper) {
        let first = digits_value(lower) as int;
        let last = if upper.len() == 0 {
            n - 1
        } else {
            digits_value(upper) as int
        };
        if first < last {
            Some((first, last))
        } else {
            None
        }
    } else {
        None
    }
}

/// The smaller of two numbers.
pub open spec fn least(a: int, b: int) -> int {
    if a < b {
        a
    } else {
        b
    }
}

/// What a placeholder stands for: digits, the argument at that index, or
/// nothing where there is none; `@`, all arguments with blanks between them;
/// `#`, the number of arguments; a range, the arguments from its first bound
/// to its last, both included; anything else, the variable of that name.
pub open spec fn resolve_spec(
    token: Seq<char>,
    args: Seq<Seq<char>>,
    vars: Seq<(Seq<char>, Seq<char>)>,
) -> Seq<char> {
    if all_digits(token) {
        if digits_value(token) < args.len() {
            args[digits_value(token) as int]
        } else {
            Seq::empty()
        }
    } else if token == seq!['@'] {
        joined(args, 0, args.len() as int)
    } else if token == seq!['#'] {
        decimal(args.len())
    } else {
        match range_bounds(token, args.len()) {
            Some((first, last)) => joined(args, first, least(last + 1, args.len() as int)),
            None => lookup(vars, token),
        }
    }
}

/// What a placeholder stands for that the end of the template has cut off:
/// nothing where it is empty.
pub open spec fn resolve_open(
    token: Seq<char>,
    args: Seq<Seq<char>>,
    vars: Seq<(Seq<char>, Seq<char>)>,
) -> Seq<char> {
    if token.len() > 0 {
        resolve_spec(token, args, vars)
    } else {
        Seq::empty()
    }
}

/// `more` behind `text`.
pub open spec fn after(text: Seq<char>, more: Result<Seq<char>, InjectError>) -> Result<
    Seq<char>,
    InjectError,
> {
    match more {
        Ok(rest) => Ok(text + rest),
        Err(e) => Err(e),
    }
}

/// The template with its placeholders filled in. `$$` stands for `$`; `$(`
/// opens a placeholder that goes up to the next `)`; any other `$` opens one
/// that goes on while letters, digits, `_`, `@` or `#` follow, and the
/// character that ends it stays as it is. A single `$` at the end is an error.
pub open spec fn inject_spec(
    template: Seq<char>,
    args: Seq<Seq<char>>,
    vars: Seq<(Seq<char>, Seq<char>)>,
) -> Result<Seq<char>, InjectError>
    decreases template.len(),
{
    if template.len() == 0 {
        Ok(Seq::empty())
    } else if template[0] != '$' {
        after(seq![template[0]], inject_spec(template.skip(1), args, vars))
    } else if template.len() == 1 {
        Err(InjectError::TrailingDollar)
    } else if template[1] == '$' {
        after(seq!['$'], inject_spec(template.skip(2), args, vars))
    } else if template[1] == '(' {
        let body = template.skip(2);
        let n = len_until(body, ')') as int;
        if n < body.len() {
            after(
                resolve_spec(body.take(n), args, vars),
                inject_spec(body.skip(n + 1), args, vars),
            )
        } else {
            Ok(resolve_open(body, args, vars))
        }
    } else {
        let body = template.skip(1);
        let n = token_len(body) as int;
        if n < body.len() {
            after(
                resolve_spec(body.take(n), args, vars) + seq![body[n]],
                inject_spec(body.skip(n + 1), args, vars),
            )
        } else {
            Ok(resolve_open(body, args, vars))
        }
    }
}

/// Neither length exceeds that of the text.
pub proof fn lemma_len_bounds(s: Seq<char>, stop: char)
    ensures
        token_len(s) <= s.len(),
        len_until(s, stop) <= s.len(),
        len_until(s, stop) < s.len() ==> s[len_until(s, stop) as int] == stop,
        token_len(s) < s.len() ==> !is_token_char_spec(s[token_len(s) as int]),
    decreases s.len(),
{
    if s.len() > 0 {
        lemma_len_bounds(s.skip(1), stop);
    }
}

/// The texts of the strings, in order.
pub open spec fn texts(args: Seq<String>) -> Seq<Seq<char>> {
    Seq::new(args.len(), |i: int| args[i]@)
}

/// The pairs of texts of the pairs of strings, in order.
pub open spec fn pairs(vars: Seq<(String, String)>) -> Seq<(Seq<char>, Seq<char>)> {
    Seq::new(vars.len(), |i: int| (vars[i].0@, vars[i].1@))
}

/// Writes the characters of `text` behind `out`.
fn push_text(out: &mut Vec<char>, text: &str)
    ensures
        final(out)@ == old(out)@ + text@,
{
    let chars = chars_of(text);
    let mut i: usize = 0;
    proof {
        assert(old(out)@ + chars@.take(0) =~= old(out)@);
    }
    while i < chars.len()
        invariant
            i <= chars.len(),
            chars@ == text@,
            out@ == old(out)@ + chars@.take(i as int),
        decreases chars.len() - i,
    {
        out.push(chars[i]);
        proof {
            assert(old(out)@ + chars@.take(i + 1) =~= (old(out)@ + chars@.take(i as int)).push(
                chars@[i as int],
            ));
        }
        i += 1;
    }
    proof {
        assert(chars@.take(i as int) =~= chars@);
    }
}

/// Writes the arguments from `from` up to `to` behind `out`, with blanks between them.
fn push_joined(out: &mut Vec<char>, args: &Vec<String>, from: usize, to: usize)
    requires
        to <= args.len(),
    ensures
        final(out)@ == old(out)@ + joined(texts(args@), from as int, to as int),
{
    if from >= to {
        proof {
            assert(old(out)@ + Seq::<char>::empty() =~= old(out)@);
        }
        return ;
    }
    push_text(out, args[from].as_str());
    let mut i: usize = from + 1;
    while i < to
        invariant
            from < i <= to,
            to <= args.len(),
            out@ == old(out)@ + joined(texts(args@), from as int, i as int),
        decreases to - i,
    {
        let ghost sofar = joined(texts(args@), from as int, i as int);
        out.push(' ');
        push_text(out, args[i].as_str());
        proof {
            assert(out@ =~= old(out)@ + (sofar + seq![' '] + args@[i as int]@));
        }
        i += 1;
    }
}

/// The characters of `text` from `from` up to `to`.
fn part(text: &Vec<char>, from: usize, to: usize) -> (r: Vec<char>)
    requires
        from <= to <= text.len(),
    ensures
        r@ == text@.subrange(from as int, to as int),
{
    let mut out: Vec<char> = Vec::new();
    let mut i: usize = from;
    while i < to
        invariant
            from <= i <= to,
            to <= text.len(),
            out@ == text@.subrange(from as int, i as int),
        decreases to - i,
    {
        out.push(text[i]);
        proof {
            assert(text@.subrange(from as int, i + 1) =~= text@.subrange(from as int, i as int).push(
                text@[i as int],
            ));
        }
        i += 1;
    }
    out
}

/// How many characters of `text` from `from` on stand in front of the first `stop`.
fn scan_until(text: &Vec<char>, from: usize, stop: char) -> (r: usize)
    requires
        from <= text.len(),
    ensures
        from <= r <= text.len(),
        r - from == len_until(text@.skip(from as int), stop),
{
    let mut j: usize = from;
    while j < text.len() && text[j] != stop
        invariant
            from <= j <= text.len(),
            len_until(text@.skip(from as int), stop) == (j - from) + len_until(
                text@.skip(j as int),
                stop,
            ),
        decreases text.len() - j,
    {
        proof {
            assert(text@.skip(j as int).skip(1) =~= text@.skip(j + 1));
        }
        j += 1;
    }
    j
}

/// How many characters of `text` from `from` on a placeholder without brackets is made of.
fn scan_token(text: &Vec<char>, from: usize) -> (r: usize)
    requires
        from <= text.len(),
    ensures
        from <= r <= text.len(),
        r - from == token_len(text@.skip(from as int)),
{
    let mut j: usize = from;
    while j < text.len() && is_token_char(text[j])
        invariant
            from <= j <= text.len(),
            token_len(text@.skip(from as int)) == (j - from) + token_len(text@.skip(j as int)),
        decreases text.len() - j,
    {
        proof {
            assert(text@.skip(j as int).skip(1) =~= text@.skip(j + 1));
        }
        j += 1;
    }
    j
}

/// Writes the value of the first variable named `key` behind `out`.
fn push_lookup(out: &mut Vec<char>, vars: &Vec<(String, String)>, key: &Vec<char>)
    ensures
        final(out)@ == old(out)@ + lookup(pairs(vars@), key@),
{
    let mut i: usize = 0;
    proof {
        assert(pairs(vars@).skip(0) =~= pairs(vars@));
    }
    while i < vars.len()
        invariant
            i <= vars.len(),
            *out == *old(out),
            lookup(pairs(vars@), key@) == lookup(pairs(vars@).skip(i as int), key@),
        decreases vars.len() - i,
    {
        proof {
            assert(pairs(vars@).skip(i as int).skip(1) =~= pairs(vars@).skip(i + 1));
            assert(pairs(vars@).skip(i as int)[0] == (vars@[i as int].0@, vars@[i as int].1@));
        }
        if crate::text::spells(key, vars[i].0.as_str()) {
            push_text(out, vars[i].1.as_str());
            return ;
        }
        i += 1;
    }
    proof {
        assert(old(out)@ + Seq::<char>::empty() =~= old(out)@);
    }
}

/// Writes the arguments of the range that `token` asks for behind `out`, if it asks for one.
fn push_range(out: &mut Vec<char>, token: &Vec<char>, args: &Vec<String>) -> (r: bool)
    ensures
        r == range_bounds(token@, args@.len()) is Some,
        !r ==> *final(out) == *old(out),
        r ==> final(out)@ == old(out)@ + joined(
            texts(args@),
            range_bounds(token@, args@.len())->Some_0.0,
            least(range_bounds(token@, args@.len())->Some_0.1 + 1, args@.len() as int),
        ),
{
    let p = scan_until(token, 0, ':');
    proof {
        assert(token@.skip(0) =~= token@);
    }
    if p < 1 || p >= token.len() {
        return false;
    }
    let lower = part(token, 0, p);
    let upper = part(token, p + 1, token.len());
    proof {
        assert(token@.take(p as int) =~= token@.subrange(0, p as int));
        assert(token@.skip(p + 1) =~= token@.subrange(p + 1, token@.len() as int));
    }
    if !is_all_digits(&lower) || !is_all_digits(&upper) {
        return false;
    }
    let n = args.len();
    let first = parse_below(&lower, n);
    if upper.len() == 0 {
        match first {
            Some(from) => {
                if from + 1 < n {
                    push_joined(out, args, from, n);
                    true
                } else {
                    false
                }
            },
            None => false,
        }
    } else {
        if !digits_less(&lower, &upper) {
            return false;
        }
        let from = match first {
            Some(from) => from,
            None => n,
        };
        let to = match parse_below(&upper, n) {
            Some(last) => last + 1,
            None => n,
        };
        push_joined(out, args, from, to);
        proof {
            let bounds = range_bounds(token@, n as nat)->Some_0;
            if first is None {
                assert(joined(texts(args@), bounds.0, least(bounds.1 + 1, n as int))
                    =~= Seq::<char>::empty());
                assert(joined(texts(args@), from as int, to as int) =~= Seq::<char>::empty());
            }
        }
        true
    }
}

/// Writes what the placeholder `token` stands for behind `out`.
fn resolve(
    out: &mut Vec<char>,
    token: &Vec<char>,
    args: &Vec<String>,
    vars: &Vec<(String, String)>,
)
    ensures
        final(out)@ == old(out)@ + resolve_spec(token@, texts(args@), pairs(vars@)),
{
    if is_all_digits(token) {
        match parse_below(token, args.len()) {
            Some(index) => {
                push_text(out, args[index].as_str());
            },
            None => {
                proof {
                    assert(old(out)@ + Seq::<char>::empty() =~= old(out)@);
                }
            },
        }
        return ;
    }
    if token.len() == 1 && token[0] == '@' {
        proof {
            assert(token@ =~= seq!['@']);
        }
        push_joined(out, args, 0, args.len());
        return ;
    }
    if token.len() == 1 && token[0] == '#' {
        proof {
            assert(token@ =~= seq!['#']);
        }
        push_decimal(out, args.len());
        return ;
    }
    proof {
        assert(token@ != seq!['@']) by {
            if token@ == seq!['@'] {
                assert(token@.len() == 1 && token@[0] == '@');
            }
        }
        assert(token@ != seq!['#']) by {
            if token@ == seq!['#'] {
                assert(token@.len() == 1 && token@[0] == '#');
            }
        }
    }
    if push_range(out, token, args) {
        return ;
    }
    push_lookup(out, vars, token);
}

/// Text behind text behind `more` is the two texts together behind `more`.
pub proof fn lemma_after_twice(x: Seq<char>, y: Seq<char>, more: Result<Seq<char>, InjectError>)
    ensures
        after(x, after(y, more)) == after(x + y, more),
{
    if more is Ok {
        assert(x + (y + more->Ok_0) =~= (x + y) + more->Ok_0);
    }
}

/// The template from `i` on is filled in behind `before` as the template
/// from `next` on is filled in behind `now`, or as `now` alone where nothing is left.
pub open spec fn stepped(
    text: Seq<char>,
    args: Seq<Seq<char>>,
    vars: Seq<(Seq<char>, Seq<char>)>,
    i: int,
    before: Seq<char>,
    next: Option<usize>,
    now: Seq<char>,
) -> bool {
    after(before, inject_spec(text.skip(i), args, vars)) == match next {
        Some(j) => after(now, inject_spec(text.skip(j as int), args, vars)),
        None => Ok::<Seq<char>, InjectError>(now),
    }
}

/// Fills in the placeholder that stands from `from` up to `end`, and keeps
/// the character that ends it where `keep` says so.
fn fill(
    out: &mut Vec<char>,
    text: &Vec<char>,
    from: usize,
    end: usize,
    keep: bool,
    args: &Vec<String>,
    vars: &Vec<(String, String)>,
) -> (next: Option<usize>)
    requires
        from <= end <= text.len(),
    ensures
        end < text.len() ==> next == Some((end + 1) as usize) && final(out)@ == old(out)@
            + resolve_spec(text@.subrange(from as int, end as int), texts(args@), pairs(vars@))
            + if keep {
            seq![text@[end as int]]
        } else {
            Seq::empty()
        },
        end == text.len() ==> next is None && final(out)@ == old(out)@ + resolve_open(
            text@.subrange(from as int, end as int),
            texts(args@),
            pairs(vars@),
        ),
{
    let token = part(text, from, end);
    if end < text.len() {
        resolve(out, &token, args, vars);
        let ghost filled = out@;
        if keep {
            out.push(text[end]);
            proof {
                assert(out@ =~= filled + seq![text@[end as int]]);
            }
        } else {
            proof {
                assert(out@ =~= filled + Seq::<char>::empty());
            }
        }
        Some(end + 1)
    } else {
        if token.len() > 0 {
            resolve(out, &token, args, vars);
        } else {
            proof {
                assert(out@ =~= old(out)@ + Seq::<char>::empty());
            }
        }
        None
    }
}

/// Fills in the placeholder in brackets that opens at `i`.
fn step_bracket(
    out: &mut Vec<char>,
    text: &Vec<char>,
    i: usize,
    args: &Vec<String>,
    vars: &Vec<(String, String)>,
) -> (next: Option<usize>)
    requires
        i + 1 < text.len(),
        text@[i as int] == '$',
        text@[i + 1] == '(',
    ensures
        next is Some ==> i < next->Some_0 <= text.len(),
        stepped(text@, texts(args@), pairs(vars@), i as int, old(out)@, next, final(out)@),
{
    let end = scan_until(text, i + 2, ')');
    let next = fill(out, text, i + 2, end, false, args, vars);
    proof {
        let a = texts(args@);
        let v = pairs(vars@);
        let rest = text@.skip(i as int);
        let body = rest.skip(2);
        let n = end - (i + 2);
        assert(body =~= text@.skip(i + 2));
        assert(body.take(n) =~= text@.subrange(i + 2, end as int));
        if end < text.len() {
            assert(body.skip(n + 1) =~= text@.skip(end + 1));
            assert(old(out)@ + resolve_spec(body.take(n), a, v) + Seq::<char>::empty() =~= old(
                out,
            )@ + resolve_spec(body.take(n), a, v));
            lemma_after_twice(
                old(out)@,
                resolve_spec(body.take(n), a, v),
                inject_spec(text@.skip(end + 1), a, v),
            );
        } else {
            assert(body.take(n) =~= body);
        }
    }
    next
}

/// Fills in the placeholder without brackets that opens at `i`.
fn step_bare(
    out: &mut Vec<char>,
    text: &Vec<char>,
    i: usize,
    args: &Vec<String>,
    vars: &Vec<(String, String)>,
) -> (next: Option<usize>)
    requires
        i + 1 < text.len(),
        text@[i as int] == '$',
        text@[i + 1] != '(',
        text@[i + 1] != '$',
    ensures
        next is Some ==> i < next->Some_0 <= text.len(),
        stepped(text@, texts(args@), pairs(vars@), i as int, old(out)@, next, final(out)@),
{
    let end = scan_token(text, i + 1);
    let next = fill(out, text, i + 1, end, true, args, vars);
    proof {
        let a = texts(args@);
        let v = pairs(vars@);
        let rest = text@.skip(i as int);
        let body = rest.skip(1);
        let n = end - (i + 1);
        assert(body =~= text@.skip(i + 1));
        assert(body.take(n) =~= text@.subrange(i + 1, end as int));
        if end < text.len() {
            assert(body.skip(n + 1) =~= text@.skip(end + 1));
            assert(body[n] == text@[end as int]);
            assert(old(out)@ + resolve_spec(body.take(n), a, v) + seq![body[n]] =~= old(out)@ + (
            resolve_spec(body.take(n), a, v) + seq![body[n]]));
            lemma_after_twice(
                old(out)@,
                resolve_spec(body.take(n), a, v) + seq![body[n]],
                inject_spec(text@.skip(end + 1), a, v),
            );
        } else {
            assert(body.take(n) =~= body);
        }
    }
    next
}

/// Fills in what stands at `i`: a character of its own, an escaped `$`, or a placeholder.
fn step(
    out: &mut Vec<char>,
    text: &Vec<char>,
    i: usize,
    args: &Vec<String>,
    vars: &Vec<(String, String)>,
) -> (r: Result<Option<usize>, InjectError>)
    requires
        i < text.len(),
    ensures
        match r {
            Ok(next) => (next is Some ==> i < next->Some_0 <= text.len()) && stepped(
                text@,
                texts(args@),
                pairs(vars@),
                i as int,
                old(out)@,
                next,
                final(out)@,
            ),
            Err(e) => inject_spec(text@.skip(i as int), texts(args@), pairs(vars@)) == Err::<
                Seq<char>,
                InjectError,
            >(e),
        },
{
    let ghost a = texts(args@);
    let ghost v = pairs(vars@);
    let ghost rest = text@.skip(i as int);
    let c = text[i];
    if c != '$' {
        out.push(c);
        proof {
            assert(rest.skip(1) =~= text@.skip(i + 1));
            assert(out@ =~= old(out)@ + seq![c]);
            lemma_after_twice(old(out)@, seq![c], inject_spec(text@.skip(i + 1), a, v));
        }
        Ok(Some(i + 1))
    } else if i + 1 >= text.len() {
        Err(InjectError::TrailingDollar)
    } else if text[i + 1] == '$' {
        out.push('$');
        proof {
            assert(rest.skip(2) =~= text@.skip(i + 2));
            assert(out@ =~= old(out)@ + seq!['$']);
            lemma_after_twice(old(out)@, seq!['$'], inject_spec(text@.skip(i + 2), a, v));
        }
        Ok(Some(i + 2))
    } else if text[i + 1] == '(' {
        Ok(step_bracket(out, text, i, args, vars))
    } else {
        Ok(step_bare(out, text, i, args, vars))
    }
}

/// Fills in the placeholders of `template` with the arguments of the target
/// and the variables, which are pairs of name and value. The arguments are
/// counted from 0 and do not hold the name of the target.
///
/// The generated program does not call this function: it runs the engine in
/// `generator::sources::DOIT_HEADER`, which is written in C++ after the same
/// rules. This function states those rules and is there to fill in a
/// template without running a generated program.
pub fn inject(template: &str, args: &Vec<String>, vars: &Vec<(String, String)>) -> (r: Result<
    String,
    InjectError,
>)
    ensures
        match inject_spec(template@, texts(args@), pairs(vars@)) {
            Ok(text) => r is Ok && r->Ok_0@ == text,
            Err(e) => r == Err::<String, InjectError>(e),
        },
{
    let text = chars_of(template);
    let mut out: Vec<char> = Vec::new();
    let mut i: usize = 0;
    let ghost a = texts(args@);
    let ghost v = pairs(vars@);
    proof {
        assert(text@.skip(0) =~= text@);
        let whole = inject_spec(text@, a, v);
        if whole is Ok {
            assert(out@ + whole->Ok_0 =~= whole->Ok_0);
        }
    }
    while i < text.len()
        invariant
            i <= text.len(),
            text@ == template@,
            a == texts(args@),
            v == pairs(vars@),
            inject_spec(text@, a, v) == after(out@, inject_spec(text@.skip(i as int), a, v)),
        decreases text.len() - i,
    {
        match step(&mut out, &text, i, args, vars) {
            Err(e) => {
                return Err(e);
            },
            Ok(None) => {
                return Ok(string_of(&out));
            },
            Ok(Some(next)) => {
                i = next;
            },
        }
    }
    proof {
        assert(out@ + Seq::<char>::empty() =~= out@);
    }
    Ok(string_of(&out))
}

/// `s` without the zeros at its end.
pub open spec fn trim_zeros(s: Seq<char>) -> Seq<char>
    decreases s.len(),
{
    if s.len() > 0 && s.last() == '0' {
        trim_zeros(s.drop_last())
    } else {
        s
    }
}

/// A number written with a decimal point, as variables hand it to scripts:
/// without the zeros at its end, and without the point where nothing is left
/// behind it. A text without a point stays as it is.
pub open spec fn number_text(s: Seq<char>) -> Seq<char> {
    if s.contains('.') {
        let t = trim_zeros(s);
        if t.len() > 0 && t.last() == '.' {
            t.drop_last()
        } else {
            t
        }
    } else {
        s
    }
}

/// Takes the zeros at the end, and a decimal point that is left bare, off a
/// number that is written with a decimal point.
pub fn stringify_number(rendered: &str) -> (r: String)
    ensures
        r@ == number_text(rendered@),
{
    let text = chars_of(rendered);
    let mut i: usize = 0;
    while i < text.len() && text[i] != '.'
        invariant
            i <= text.len(),
            forall|j: int| 0 <= j < i ==> text@[j] != '.',
        decreases text.len() - i,
    {
        i += 1;
    }
    if i == text.len() {
        return string_of(&text);
    }
    assert(text@[i as int] == '.');
    let mut end: usize = text.len();
    proof {
        assert(text@.take(end as int) =~= text@);
    }
    while end > 0 && text[end - 1] == '0'
        invariant
            end <= text.len(),
            trim_zeros(text@) == trim_zeros(text@.take(end as int)),
        decreases end,
    {
        proof {
            assert(text@.take(end as int).drop_last() =~= text@.take(end - 1));
        }
        end -= 1;
    }
    if end > 0 && text[end - 1] == '.' {
        proof {
            assert(text@.take(end as int).drop_last() =~= text@.take(end - 1));
        }
        end -= 1;
    }
    let out = part(&text, 0, end);
    proof {
        assert(text@.subrange(0, end as int) =~= text@.take(end as int));
    }
    string_of(&out)
}

} // verus!
