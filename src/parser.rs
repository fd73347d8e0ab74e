//! Small parsers for the textual IR: each takes the input and returns the
//! rest of it with what was parsed, or an error.

use vstd::prelude::*;
use vstd::string::*;

verus! {

/// Why a parse failed.
#[derive(Clone, Copy, Debug, PartialEq, Eq)]
pub enum ErrorKind {
    CustomErr(&'static str),
    Expected(&'static str),
    OneOf(&'static str),
    EndOfFile,
}

/// A parse failure at `input`.  A recoverable one lets an enclosing parser
/// try an alternative.
#[derive(Clone, Copy, Debug)]
pub struct ParseError<'a> {
    pub input: &'a str,
    pub reason: ErrorKind,
    pub is_unrecoverable: bool,
}

impl<'a> ParseError<'a> {
    pub fn new(input: &'a str, reason: ErrorKind) -> (r: ParseError<'a>)
        ensures
            r.input == input,
            r.reason == reason,
            !r.is_unrecoverable,
    {
        ParseError { input, reason, is_unrecoverable: false }
    }
}

pub type PResult<'a, O> = Result<(&'a str, O), ParseError<'a>>;

/// Whether `c` is numeric in Unicode's sense.
pub uninterp spec fn numeric_char(c: char) -> bool;

/// Relies on `char::is_numeric`: whether `c` has a Unicode numeric general
/// category, which includes the ASCII digits.
#[verifier::external_body]
fn char_is_numeric(c: char) -> (r: bool)
    ensures
        r == numeric_char(c),
        '0' <= c <= '9' ==> r,
{
    c.is_numeric()
}

/// The value of `c` as a digit, if it is one in base 36.
pub open spec fn digit_value(c: char) -> int {
    if '0' <= c <= '9' {
        c as int - '0' as int
    } else if 'a' <= c <= 'z' {
        c as int - 'a' as int + 10
    } else if 'A' <= c <= 'Z' {
        c as int - 'A' as int + 10
    } else {
        99
    }
}

/// Whether `c` is a digit in base `radix` (2 to 36).
pub fn is_digit(c: char, radix: u32) -> (r: bool)
    ensures
        r == (digit_value(c) < radix),
{
    let v: u32 = if '0' <= c && c <= '9' {
        (c as u32) - ('0' as u32)
    } else if 'a' <= c && c <= 'z' {
        (c as u32) - ('a' as u32) + 10
    } else if 'A' <= c && c <= 'Z' {
        (c as u32) - ('A' as u32) + 10
    } else {
        99
    };
    v < radix
}

/// Splits `input` after its longest prefix whose characters all satisfy
/// `f`.  Never fails.
pub fn take_while<'a, F: Fn(char) -> bool>(input: &'a str, f: F) -> (r: PResult<'a, &'a str>)
    requires
        forall|c: char| #[trigger] f.requires((c,)),
    ensures
        r matches Ok((rest, captured)) && {
            &&& captured@ + rest@ == input@
            &&& forall|i: int| 0 <= i < captured@.len() ==> f.ensures((#[trigger] captured@[i],), true)
            &&& rest@.len() > 0 ==> f.ensures((rest@[0],), false)
        },
{
    let n = input.unicode_len();
    let mut i: usize = 0;
    let mut stopped = false;
    while i < n && !stopped
        invariant
            n == input@.len(),
            i <= n,
            forall|c: char| #[trigger] f.requires((c,)),
            forall|j: int| 0 <= j < i ==> f.ensures((#[trigger] input@[j],), true),
            stopped ==> i < n && f.ensures((input@[i as int],), false),
        decreases n - i, if stopped { 0int } else { 1int },
    {
        let c = input.get_char(i);
        if f(c) {
            i += 1;
        } else {
            stopped = true;
        }
    }
    let captured = input.substring_char(0, i);
    let rest = input.substring_char(i, n);
    assert(captured@ + rest@ =~= input@);
    assert forall|j: int| 0 <= j < captured@.len() implies f.ensures((#[trigger] captured@[j],), true) by {
        assert(captured@[j] == input@[j]);
    }
    proof {
        if rest@.len() > 0 {
            assert(rest@[0] == input@[i as int]);
        }
    }
    Ok((rest, captured))
}

/// Like `take_while`, but fails when the prefix is empty.
pub fn take_while1<'a, F: Fn(char) -> bool>(input: &'a str, f: F) -> (r: PResult<'a, &'a str>)
    requires
        forall|c: char| #[trigger] f.requires((c,)),
    ensures
        r matches Ok((rest, captured)) ==> {
            &&& captured@.len() > 0
            &&& captured@ + rest@ == input@
            &&& forall|i: int| 0 <= i < captured@.len() ==> f.ensures((#[trigger] captured@[i],), true)
            &&& rest@.len() > 0 ==> f.ensures((rest@[0],), false)
        },
        r matches Err(e) ==> {
            &&& e.input == input
            &&& e.reason == ErrorKind::Expected("take_while1 failed")
            &&& !e.is_unrecoverable
            &&& input@.len() > 0 ==> f.ensures((input@[0],), false)
        },
{
    match take_while(input, f) {
        Ok((rest, captured)) => {
            if captured.unicode_len() == 0 {
                assert(rest@ =~= input@);
                Err(ParseError::new(input, ErrorKind::Expected("take_while1 failed")))
            } else {
                Ok((rest, captured))
            }
        },
        Err(e) => Err(e),
    }
}

/// Whether `input` starts with `prefix`.
pub open spec fn starts_with(input: Seq<char>, prefix: Seq<char>) -> bool {
    prefix.len() <= input.len() && input.subrange(0, prefix.len() as int) == prefix
}

fn str_starts_with(input: &str, prefix: &str) -> (r: bool)
    ensures
        r == starts_with(input@, prefix@),
{
    let n = input.unicode_len();
    let m = prefix.unicode_len();
    if m > n {
        return false;
    }
    let mut i: usize = 0;
    while i < m
        invariant
            n == input@.len(),
            m == prefix@.len(),
            m <= n,
            i <= m,
            forall|j: int| 0 <= j < i ==> input@[j] == prefix@[j],
        decreases m - i,
    {
        if input.get_char(i) != prefix.get_char(i) {
            assert(input@.subrange(0, m as int)[i as int] != prefix@[i as int]);
            return false;
        }
        i += 1;
    }
    assert(input@.subrange(0, m as int) =~= prefix@);
    true
}

/// Matches the literal `expected` at the start of `input`.
pub fn tag<'a>(expected: &'static str, input: &'a str) -> (r: PResult<'a, &'a str>)
    ensures
        starts_with(input@, expected@) <==> r is Ok,
        r matches Ok((rest, matched)) ==> matched@ == expected@ && matched@ + rest@ == input@,
        r matches Err(e) ==> e.input == input && e.reason == ErrorKind::Expected(expected) && !e.is_unrecoverable,
{
    if !str_starts_with(input, expected) {
        return Err(ParseError::new(input, ErrorKind::Expected(expected)));
    }
    let m = expected.unicode_len();
    let n = input.unicode_len();
    let matched = input.substring_char(0, m);
    let rest = input.substring_char(m, n);
    assert(matched@ + rest@ =~= input@);
    Ok((rest, matched))
}

/// Matches one character of `input` that is one of `chars`.
pub fn one_of<'a>(chars: &'static str, input: &'a str) -> (r: PResult<'a, &'a str>)
    ensures
        (input@.len() > 0 && chars@.contains(input@[0])) <==> r is Ok,
        r matches Ok((rest, matched)) ==> matched@ == seq![input@[0]] && matched@ + rest@ == input@,
        r matches Err(e) ==> {
            &&& e.input == input
            &&& !e.is_unrecoverable
            &&& input@.len() == 0 ==> e.reason == ErrorKind::EndOfFile
            &&& input@.len() > 0 ==> e.reason == ErrorKind::OneOf(chars)
        },
{
    let n = input.unicode_len();
    if n == 0 {
        return Err(ParseError::new(input, ErrorKind::EndOfFile));
    }
    let first = input.get_char(0);
    let m = chars.unicode_len();
    let mut k: usize = 0;
    let mut found = false;
    while k < m
        invariant
            m == chars@.len(),
            k <= m,
            found <==> exists|j: int| 0 <= j < k && chars@[j] == first,
        decreases m - k,
    {
        if chars.get_char(k) == first {
            found = true;
        }
        k += 1;
    }
    if !found {
        return Err(ParseError::new(input, ErrorKind::OneOf(chars)));
    }
    let matched = input.substring_char(0, 1);
    let rest = input.substring_char(1, n);
    assert(matched@ =~= seq![input@[0]]);
    assert(matched@ + rest@ =~= input@);
    Ok((rest, matched))
}

pub open spec fn is_blank(c: char) -> bool {
    c == ' ' || c == '\t'
}

/// Skips spaces and tabs.  Never fails.
pub fn whitespace<'a>(input: &'a str) -> (r: PResult<'a, &'a str>)
    ensures
        r matches Ok((rest, ws)) && {
            &&& ws@ + rest@ == input@
            &&& forall|i: int| 0 <= i < ws@.len() ==> is_blank(#[trigger] ws@[i])
            &&& rest@.len() > 0 ==> !is_blank(rest@[0])
        },
{
    let f = |c: char| -> (b: bool)
        ensures
            b == is_blank(c),
        { c == ' ' || c == '\t' };
    take_while(input, f)
}

/// A comment from `start` to the end of the line; returns the comment's
/// text after `start`, without the newline.
pub fn line_comment<'a>(start: &'static str, input: &'a str) -> (r: PResult<'a, &'a str>)
    ensures
        starts_with(input@, start@) <==> r is Ok,
        r matches Ok((rest, comment)) ==> {
            &&& start@ + comment@ + rest@ == input@
            &&& !comment@.contains('\n')
            &&& rest@.len() > 0 ==> rest@[0] == '\n'
        },
        r matches Err(e) ==> e.input == input && e.reason == ErrorKind::Expected(start) && !e.is_unrecoverable,
{
    let (after, _tag) = match tag(start, input) {
        Ok(x) => x,
        Err(e) => return Err(e),
    };
    let f = |c: char| -> (b: bool)
        ensures
            b == (c != '\n'),
        { c != '\n' };
    match take_while(after, f) {
        Ok((rest, comment)) => {
            assert(!comment@.contains('\n')) by {
                if comment@.contains('\n') {
                    let j = choose|j: int| 0 <= j < comment@.len() && comment@[j] == '\n';
                    assert(f.ensures((comment@[j],), true));
                }
            }
            Ok((rest, comment))
        },
        Err(e) => Err(e),
    }
}


/// A parser accepts any input and, whenever it succeeds, consumes some of
/// it and returns the rest.
pub open spec fn makes_progress<'a, O, P: Fn(&'a str) -> PResult<'a, O>>(p: P) -> bool {
    &&& forall|i: &'a str| #[trigger] p.requires((i,))
    &&& forall|i: &'a str, r: PResult<'a, O>|
        #[trigger] p.ensures((i,), r) ==> (r matches Ok((rest, _)) ==> rest@.len() < i@.len() && is_suffix(rest@, i@))
}

/// `rest` is a suffix of `input`.
pub open spec fn is_suffix(rest: Seq<char>, input: Seq<char>) -> bool {
    rest.len() <= input.len() && input.subrange(input.len() - rest.len(), input.len() as int) == rest
}

proof fn lemma_suffix_trans(a: Seq<char>, b: Seq<char>, c: Seq<char>)
    requires
        is_suffix(a, b),
        is_suffix(b, c),
    ensures
        is_suffix(a, c),
{
    assert(c.subrange(c.len() - a.len(), c.len() as int) =~= b.subrange(b.len() - a.len(), b.len() as int));
}

/// `items` are what `p` parsed in turn starting from `input`: the `k`-th
/// parse ran on `cuts[k]`, gave `results[k]`, and left `cuts[k + 1]`; the
/// last cut is `rest`.
pub open spec fn parse_run<'a, O, P: Fn(&'a str) -> PResult<'a, O>>(
    p: P,
    input: &'a str,
    cuts: Seq<&'a str>,
    results: Seq<PResult<'a, O>>,
    items: Seq<O>,
    rest: &'a str,
) -> bool {
    &&& cuts.len() == items.len() + 1
    &&& results.len() == items.len()
    &&& cuts[0] == input
    &&& cuts.last() == rest
    &&& forall|k: int| 0 <= k < items.len() ==> #[trigger] p.ensures((cuts[k],), results[k]) && results[k] is Ok
        && results[k]->Ok_0.0 == cuts[k + 1] && results[k]->Ok_0.1 == items[k]
}

/// Applies `p` as many times as it succeeds; fails when that is fewer
/// than `m` times, or as soon as `p` fails unrecoverably.
pub fn many_m<'a, O, P: Fn(&'a str) -> PResult<'a, O>>(m: usize, p: P, input: &'a str) -> (r: PResult<'a, Vec<O>>)
    requires
        makes_progress(p),
    ensures
        r matches Ok((rest, items)) ==> {
            &&& items@.len() >= m
            &&& is_suffix(rest@, input@)
            &&& exists|e: ParseError<'a>| #[trigger] p.ensures((rest,), Err(e)) && !e.is_unrecoverable
        },
        r is Ok ==> exists|cuts: Seq<&'a str>, results: Seq<PResult<'a, O>>|
            #[trigger] parse_run(p, input, cuts, results, r->Ok_0.1@, r->Ok_0.0),
        r matches Err(e) ==> {
            ||| e.is_unrecoverable && exists|i: &'a str| #[trigger] p.ensures((i,), Err(e))
            ||| m > 0 && e.input == input && e.reason == ErrorKind::Expected("Not enough items in list") && !e.is_unrecoverable
        },
        // The "not enough items" error comes only when `p` stopped, failing
        // recoverably, after fewer than `m` items.
        r matches Err(e) && !e.is_unrecoverable ==> exists|cuts: Seq<&'a str>, results: Seq<PResult<'a, O>>, items: Seq<O>|
            #[trigger] parse_run(p, input, cuts, results, items, cuts.last()) && items.len() < m
                && exists|e2: ParseError<'a>| #[trigger] p.ensures((cuts.last(),), Err(e2)) && !e2.is_unrecoverable,
{
    let mut items: Vec<O> = Vec::new();
    let mut cur = input;
    let ghost mut cuts: Seq<&'a str> = seq![input];
    let ghost mut results: Seq<PResult<'a, O>> = Seq::empty();
    assert(input@.subrange(0, input@.len() as int) =~= input@);
    loop
        invariant
            makes_progress(p),
            is_suffix(cur@, input@),
            parse_run(p, input, cuts, results, items@, cur),
        decreases cur@.len(),
    {
        let res = p(cur);
        let ghost gres = res;
        match res {
            Ok(pair) => {
                proof {
                    lemma_suffix_trans(pair.0@, cur@, input@);
                    cuts = cuts.push(pair.0);
                    results = results.push(gres);
                }
                let ghost items0 = items@;
                items.push(pair.1);
                proof {
                    assert forall|k: int| 0 <= k < items@.len() implies #[trigger] p.ensures((cuts[k],), results[k]) && results[k] is Ok
                        && results[k]->Ok_0.0 == cuts[k + 1] && results[k]->Ok_0.1 == items@[k] by {
                        if k < items0.len() {
                            assert(items@[k] == items0[k]);
                        }
                    }
                }
                cur = pair.0;
            },
            Err(e) => {
                if e.is_unrecoverable {
                    return Err(e);
                }
                if items.len() >= m {
                    let ghost gi = items@;
                    let r = Ok((cur, items));
                    proof {
                        assert(r->Ok_0.1@ == gi);
                        assert(r->Ok_0.0 == cur);
                        assert(parse_run(p, input, cuts, results, r->Ok_0.1@, r->Ok_0.0));
                    }
                    return r;
                }
                proof {
                    assert(p.ensures((cur,), Err(e)));
                    assert(parse_run(p, input, cuts, results, items@, cuts.last()));
                }
                return Err(ParseError::new(input, ErrorKind::Expected("Not enough items in list")));
            },
        }
    }
}


/// `p` applied any number of times.
pub fn many0<'a, O, P: Fn(&'a str) -> PResult<'a, O>>(p: P, input: &'a str) -> (r: PResult<'a, Vec<O>>)
    requires
        makes_progress(p),
    ensures
        r matches Ok((rest, items)) ==> {
            &&& is_suffix(rest@, input@)
            &&& exists|e: ParseError<'a>| #[trigger] p.ensures((rest,), Err(e)) && !e.is_unrecoverable
        },
        r matches Err(e) ==> e.is_unrecoverable && exists|i: &'a str| #[trigger] p.ensures((i,), Err(e)),
{
    many_m(0, p, input)
}

/// `p` applied at least once.
pub fn many1<'a, O, P: Fn(&'a str) -> PResult<'a, O>>(p: P, input: &'a str) -> (r: PResult<'a, Vec<O>>)
    requires
        makes_progress(p),
    ensures
        r matches Ok((rest, items)) ==> {
            &&& items@.len() >= 1
            &&& is_suffix(rest@, input@)
            &&& exists|e: ParseError<'a>| #[trigger] p.ensures((rest,), Err(e)) && !e.is_unrecoverable
        },
        r matches Err(e) ==> {
            ||| e.is_unrecoverable && exists|i: &'a str| #[trigger] p.ensures((i,), Err(e))
            ||| e.input == input && e.reason == ErrorKind::Expected("Not enough items in list") && !e.is_unrecoverable
        },
{
    many_m(1, p, input)
}

/// A parser accepts any input and, when it succeeds, returns a suffix of
/// it.
pub open spec fn returns_suffix<'a, O, P: Fn(&'a str) -> PResult<'a, O>>(p: P) -> bool {
    &&& forall|i: &'a str| #[trigger] p.requires((i,))
    &&& forall|i: &'a str, r: PResult<'a, O>|
        #[trigger] p.ensures((i,), r) ==> (r matches Ok((rest, _)) ==> is_suffix(rest@, i@))
}

/// `items` are what `p` parsed from the cuts `cuts[k]`, each but possibly
/// the last followed by a separator that `s` parsed up to `cuts[k + 1]`;
/// when the last item has no separator after it, the last cut is where
/// that item started.
pub open spec fn sep_run<'a, O, OS, P: Fn(&'a str) -> PResult<'a, O>, S: Fn(&'a str) -> PResult<'a, OS>>(
    p: P,
    s: S,
    input: &'a str,
    cuts: Seq<&'a str>,
    pres: Seq<PResult<'a, O>>,
    sres: Seq<PResult<'a, OS>>,
    items: Seq<O>,
) -> bool {
    &&& cuts[0] == input
    &&& pres.len() == items.len()
    &&& (sres.len() == items.len() || sres.len() + 1 == items.len())
    &&& cuts.len() == sres.len() + 1
    &&& forall|k: int| 0 <= k < items.len() ==> #[trigger] p.ensures((cuts[k],), pres[k]) && pres[k] is Ok
        && pres[k]->Ok_0.1 == items[k]
    &&& forall|k: int| 0 <= k < sres.len() ==> #[trigger] s.ensures((pres[k]->Ok_0.0,), sres[k]) && sres[k] is Ok
        && sres[k]->Ok_0.0 == cuts[k + 1]
}

/// The list ended on a recoverable failure: of `p` at the last cut when
/// every item had its separator, else of `s` after the last item.
pub open spec fn sep_stopped<'a, O, OS, P: Fn(&'a str) -> PResult<'a, O>, S: Fn(&'a str) -> PResult<'a, OS>>(
    p: P,
    s: S,
    cuts: Seq<&'a str>,
    pres: Seq<PResult<'a, O>>,
    sres: Seq<PResult<'a, OS>>,
    items: Seq<O>,
) -> bool {
    &&& sres.len() == items.len() ==> exists|e: ParseError<'a>| #[trigger] p.ensures((cuts.last(),), Err(e)) && !e.is_unrecoverable
    &&& sres.len() + 1 == items.len() ==> exists|e: ParseError<'a>| #[trigger] s.ensures((pres.last()->Ok_0.0,), Err(e))
        && !e.is_unrecoverable
}

/// Items parsed by `p` separated by what `s` parses.  A separator that
/// does not follow ends the list; the rest then starts at the last item,
/// as it did before that item was parsed.  Fails when fewer than `m` items
/// were parsed, or as soon as either parser fails unrecoverably.
pub fn separated_list_m<'a, O, OS, P: Fn(&'a str) -> PResult<'a, O>, S: Fn(&'a str) -> PResult<'a, OS>>(
    m: usize,
    p: P,
    s: S,
    input: &'a str,
) -> (r: PResult<'a, Vec<O>>)
    requires
        makes_progress(p),
        returns_suffix(s),
    ensures
        r matches Ok((rest, items)) ==> items@.len() >= m && is_suffix(rest@, input@),
        r is Ok ==> exists|cuts: Seq<&'a str>, pres: Seq<PResult<'a, O>>, sres: Seq<PResult<'a, OS>>|
            #[trigger] sep_run(p, s, input, cuts, pres, sres, r->Ok_0.1@) && cuts.last() == r->Ok_0.0,
        // The "not enough items" error comes only when the list stopped, on
        // a recoverable failure, after fewer than `m` items.
        r matches Err(e) && !e.is_unrecoverable ==> exists|cuts: Seq<&'a str>, pres: Seq<PResult<'a, O>>, sres: Seq<PResult<'a, OS>>, items: Seq<O>|
            #[trigger] sep_run(p, s, input, cuts, pres, sres, items) && items.len() < m && sep_stopped(p, s, cuts, pres, sres, items),
        r matches Err(e) ==> {
            ||| e.is_unrecoverable && exists|i: &'a str| #[trigger] p.ensures((i,), Err(e))
            ||| e.is_unrecoverable && exists|i: &'a str| #[trigger] s.ensures((i,), Err(e))
            ||| m > 0 && e.input == input && e.reason == ErrorKind::Expected("Not enough items in list") && !e.is_unrecoverable
        },
{
    let mut items: Vec<O> = Vec::new();
    let mut cur = input;
    let ghost mut cuts: Seq<&'a str> = seq![input];
    let ghost mut pres: Seq<PResult<'a, O>> = Seq::empty();
    let ghost mut sres: Seq<PResult<'a, OS>> = Seq::empty();
    assert(input@.subrange(0, input@.len() as int) =~= input@);
    loop
        invariant_except_break
            sres.len() == items@.len(),
        invariant
            makes_progress(p),
            returns_suffix(s),
            is_suffix(cur@, input@),
            sep_run(p, s, input, cuts, pres, sres, items@),
            cuts.last() == cur,
        ensures
            is_suffix(cur@, input@),
            sep_run(p, s, input, cuts, pres, sres, items@),
            cuts.last() == cur,
            sep_stopped(p, s, cuts, pres, sres, items@),
        decreases cur@.len(),
    {
        let res = p(cur);
        let ghost gres = res;
        let pair = match res {
            Ok(x) => x,
            Err(e) => {
                if e.is_unrecoverable {
                    return Err(e);
                }
                proof {
                    assert(p.ensures((cuts.last(),), Err(e)));
                }
                break;
            },
        };
        let ghost items0 = items@;
        proof {
            pres = pres.push(gres);
        }
        items.push(pair.1);
        proof {
            assert forall|k: int| 0 <= k < items@.len() implies #[trigger] p.ensures((cuts[k],), pres[k]) && pres[k] is Ok
                && pres[k]->Ok_0.1 == items@[k] by {
                if k < items0.len() {
                    assert(items@[k] == items0[k]);
                }
            }
        }
        let sr = s(pair.0);
        let ghost gsr = sr;
        let rem2 = match sr {
            Ok(y) => y.0,
            Err(e) => {
                if e.is_unrecoverable {
                    return Err(e);
                }
                proof {
                    assert(pres.last() == gres);
                    assert(s.ensures((pres.last()->Ok_0.0,), Err(e)));
                }
                break;
            },
        };
        proof {
            lemma_suffix_trans(rem2@, pair.0@, cur@);
            lemma_suffix_trans(rem2@, cur@, input@);
            sres = sres.push(gsr);
            cuts = cuts.push(rem2);
        }
        cur = rem2;
    }
    if items.len() >= m {
        let ghost gi = items@;
        let r = Ok((cur, items));
        proof {
            assert(r->Ok_0.1@ == gi);
            assert(sep_run(p, s, input, cuts, pres, sres, r->Ok_0.1@));
        }
        r
    } else {
        proof {
            assert(sep_run(p, s, input, cuts, pres, sres, items@));
            assert(sep_stopped(p, s, cuts, pres, sres, items@));
        }
        Err(ParseError::new(input, ErrorKind::Expected("Not enough items in list")))
    }
}

pub fn separated_list0<'a, O, OS, P: Fn(&'a str) -> PResult<'a, O>, S: Fn(&'a str) -> PResult<'a, OS>>(
    p: P,
    s: S,
    input: &'a str,
) -> (r: PResult<'a, Vec<O>>)
    requires
        makes_progress(p),
        returns_suffix(s),
    ensures
        r matches Ok((rest, items)) ==> is_suffix(rest@, input@),
        r matches Err(e) ==> {
            ||| e.is_unrecoverable && exists|i: &'a str| #[trigger] p.ensures((i,), Err(e))
            ||| e.is_unrecoverable && exists|i: &'a str| #[trigger] s.ensures((i,), Err(e))
        },
{
    separated_list_m(0, p, s, input)
}

pub fn separated_list1<'a, O, OS, P: Fn(&'a str) -> PResult<'a, O>, S: Fn(&'a str) -> PResult<'a, OS>>(
    p: P,
    s: S,
    input: &'a str,
) -> (r: PResult<'a, Vec<O>>)
    requires
        makes_progress(p),
        returns_suffix(s),
    ensures
        r matches Ok((rest, items)) ==> items@.len() >= 1 && is_suffix(rest@, input@),
        r matches Err(e) ==> {
            ||| e.is_unrecoverable && exists|i: &'a str| #[trigger] p.ensures((i,), Err(e))
            ||| e.is_unrecoverable && exists|i: &'a str| #[trigger] s.ensures((i,), Err(e))
            ||| e.input == input && e.reason == ErrorKind::Expected("Not enough items in list") && !e.is_unrecoverable
        },
{
    separated_list_m(1, p, s, input)
}

/// `parser` between `prefix` and `postfix`; returns what `parser` parsed.
pub fn delimited<'a, OA, OB, OC, A, B, C>(prefix: A, parser: B, postfix: C, input: &'a str) -> (r: PResult<'a, OB>)
    where
        A: Fn(&'a str) -> PResult<'a, OA>,
        B: Fn(&'a str) -> PResult<'a, OB>,
        C: Fn(&'a str) -> PResult<'a, OC>,
    requires
        forall|i: &'a str| #[trigger] prefix.requires((i,)),
        forall|i: &'a str| #[trigger] parser.requires((i,)),
        forall|i: &'a str| #[trigger] postfix.requires((i,)),
    ensures
        r matches Ok((rest, b)) ==> exists|r1: PResult<'a, OA>, r2: PResult<'a, OB>, r3: PResult<'a, OC>|
            #[trigger] prefix.ensures((input,), r1) && #[trigger] parser.ensures((r1->Ok_0.0,), r2)
                && #[trigger] postfix.ensures((r2->Ok_0.0,), r3) && r1 is Ok && r2 is Ok && r3 is Ok
                && r2->Ok_0.1 == b && r3->Ok_0.0 == rest,
        r matches Err(e) ==> {
            ||| prefix.ensures((input,), Err(e))
            ||| exists|i: &'a str| #[trigger] parser.ensures((i,), Err(e))
            ||| exists|i: &'a str| #[trigger] postfix.ensures((i,), Err(e))
        },
{
    let r1 = prefix(input);
    let ghost g1 = r1;
    let i1 = match r1 {
        Ok((i1, _a)) => i1,
        Err(e) => return Err(e),
    };
    let r2 = parser(i1);
    let ghost g2 = r2;
    let (i2, b) = match r2 {
        Ok(x) => x,
        Err(e) => return Err(e),
    };
    let r3 = postfix(i2);
    let ghost g3 = r3;
    let rest = match r3 {
        Ok((rest, _c)) => rest,
        Err(e) => return Err(e),
    };
    proof {
        assert(prefix.ensures((input,), g1) && parser.ensures((g1->Ok_0.0,), g2) && postfix.ensures((g2->Ok_0.0,), g3));
    }
    Ok((rest, b))
}

/// `parser` followed by `postfix`; returns what `parser` parsed.
pub fn terminated<'a, OA, OB, A, B>(parser: A, postfix: B, input: &'a str) -> (r: PResult<'a, OA>)
    where
        A: Fn(&'a str) -> PResult<'a, OA>,
        B: Fn(&'a str) -> PResult<'a, OB>,
    requires
        forall|i: &'a str| #[trigger] parser.requires((i,)),
        forall|i: &'a str| #[trigger] postfix.requires((i,)),
    ensures
        r matches Ok((rest, a)) ==> exists|r1: PResult<'a, OA>, r2: PResult<'a, OB>|
            #[trigger] parser.ensures((input,), r1) && #[trigger] postfix.ensures((r1->Ok_0.0,), r2) && r1 is Ok
                && r1->Ok_0.1 == a && r2 is Ok && r2->Ok_0.0 == rest,
        r matches Err(e) ==> {
            ||| parser.ensures((input,), Err(e))
            ||| exists|i: &'a str| #[trigger] postfix.ensures((i,), Err(e))
        },
{
    let r1 = parser(input);
    let ghost g1 = r1;
    match r1 {
        Err(e) => Err(e),
        Ok((i1, a)) => {
            let r2 = postfix(i1);
            let ghost g2 = r2;
            match r2 {
                Err(e) => Err(e),
                Ok((rest, b)) => {
                    let r = Ok((rest, a));
                    proof {
                        assert(parser.ensures((input,), g1) && postfix.ensures((g1->Ok_0.0,), g2));
                    }
                    r
                },
            }
        },
    }
}

/// `parser` after `prefix`.  When the prefix identifies what follows
/// (`is_unique`), a failure of `parser` is unrecoverable: nothing else
/// could match here.
pub struct PrecededParser<A, B> {
    pub prefix: A,
    pub parser: B,
    pub is_unique: bool,
}

impl<A, B> PrecededParser<A, B> {
    pub fn parse<'a, OA, OB>(&self, input: &'a str) -> (r: PResult<'a, OB>)
        where
            A: Fn(&'a str) -> PResult<'a, OA>,
            B: Fn(&'a str) -> PResult<'a, OB>,
        requires
            forall|i: &'a str| #[trigger] self.prefix.requires((i,)),
            forall|i: &'a str| #[trigger] self.parser.requires((i,)),
        ensures
            r matches Ok((rest, b)) ==> exists|i1: &'a str, a: OA|
                #[trigger] self.prefix.ensures((input,), Ok((i1, a))) && #[trigger] self.parser.ensures((i1,), Ok((rest, b))),
            r matches Err(e) ==> {
                ||| self.prefix.ensures((input,), Err(e))
                ||| exists|i: &'a str, e0: ParseError<'a>| #[trigger] self.parser.ensures((i,), Err(e0))
                    && e == (ParseError { is_unrecoverable: e0.is_unrecoverable || self.is_unique, ..e0 })
            },
    {
        let (i1, parsed) = match (self.prefix)(input) {
            Ok(x) => x,
            Err(e) => return Err(e),
        };
        match (self.parser)(i1) {
            Ok(x) => {
                proof {
                    assert(self.prefix.ensures((input,), Ok((i1, parsed))) && self.parser.ensures((i1,), Ok((x.0, x.1))));
                }
                Ok(x)
            },
            Err(e) => {
                if self.is_unique {
                    Err(ParseError { is_unrecoverable: true, ..e })
                } else {
                    Err(e)
                }
            },
        }
    }
}

/// `parser` after `prefix`, whose failure after the prefix may still be
/// recovered from.
pub fn preceded<A, B>(prefix: A, parser: B) -> (r: PrecededParser<A, B>)
    ensures
        r.prefix == prefix,
        r.parser == parser,
        !r.is_unique,
{
    PrecededParser { prefix, parser, is_unique: false }
}

/// `parser` after a prefix that identifies it: a failure after the prefix
/// cannot be recovered from.
pub fn preceded_unique<A, B>(prefix: A, parser: B) -> (r: PrecededParser<A, B>)
    ensures
        r.prefix == prefix,
        r.parser == parser,
        r.is_unique,
{
    PrecededParser { prefix, parser, is_unique: true }
}


/// `s` without a leading sign.
pub open spec fn unsigned_part(s: Seq<char>) -> Seq<char> {
    if s.len() > 0 && (s[0] == '+' || s[0] == '-') { s.drop_first() } else { s }
}

/// The digits of base `radix` at the start of `after`, and the rest.
fn digits_after<'a>(after: &'a str, radix: u32) -> (r: (&'a str, &'a str))
    ensures
        r.0@ + r.1@ == after@,
        forall|i: int| 0 <= i < r.0@.len() ==> digit_value(#[trigger] r.0@[i]) < radix,
        r.1@.len() > 0 ==> digit_value(r.1@[0]) >= radix,
{
    let f = |c: char| -> (b: bool)
        ensures
            b == (digit_value(c) < radix),
        { is_digit(c, radix) };
    match take_while(after, f) {
        Ok((rest, digits)) => (digits, rest),
        Err(_) => unreached(),
    }
}

/// An optionally signed integer: `0x` and hexadecimal digits, `0o` and
/// octal digits, `0b` and binary digits, or else numeric characters.
/// Returns whether there was no minus sign, the radix prefix (empty for
/// none) and the digits, which may be empty.  Never fails.
pub fn parse_int<'a>(input: &'a str) -> (r: PResult<'a, (bool, (&'a str, &'a str))>)
    ensures
        r matches Ok((rest, (positive, (prefix, digits)))) && {
            &&& positive == !(input@.len() > 0 && input@[0] == '-')
            &&& prefix@ + digits@ + rest@ == unsigned_part(input@)
            &&& starts_with(unsigned_part(input@), seq!['0', 'x']) ==> prefix@ == seq!['0', 'x']
                && forall|i: int| 0 <= i < digits@.len() ==> digit_value(#[trigger] digits@[i]) < 16
            &&& !starts_with(unsigned_part(input@), seq!['0', 'x']) && starts_with(unsigned_part(input@), seq!['0', 'o'])
                ==> prefix@ == seq!['0', 'o'] && forall|i: int| 0 <= i < digits@.len() ==> digit_value(#[trigger] digits@[i]) < 8
            &&& !starts_with(unsigned_part(input@), seq!['0', 'x']) && !starts_with(unsigned_part(input@), seq!['0', 'o'])
                && starts_with(unsigned_part(input@), seq!['0', 'b'])
                ==> prefix@ == seq!['0', 'b'] && forall|i: int| 0 <= i < digits@.len() ==> digit_value(#[trigger] digits@[i]) < 2
            &&& !starts_with(unsigned_part(input@), seq!['0', 'x']) && !starts_with(unsigned_part(input@), seq!['0', 'o'])
                && !starts_with(unsigned_part(input@), seq!['0', 'b'])
                ==> prefix@.len() == 0 && forall|i: int| 0 <= i < digits@.len() ==> numeric_char(#[trigger] digits@[i])
            // The digit run is the longest one: what follows is no digit.
            &&& rest@.len() > 0 && prefix@ == seq!['0', 'x'] ==> digit_value(rest@[0]) >= 16
            &&& rest@.len() > 0 && prefix@ == seq!['0', 'o'] ==> digit_value(rest@[0]) >= 8
            &&& rest@.len() > 0 && prefix@ == seq!['0', 'b'] ==> digit_value(rest@[0]) >= 2
            &&& rest@.len() > 0 && prefix@.len() == 0 ==> !numeric_char(rest@[0])
        },
{
    proof {
        reveal_strlit("+-");
        reveal_strlit("0x");
        reveal_strlit("0o");
        reveal_strlit("0b");
        reveal_strlit("");
    }
    let (after, positive) = match one_of("+-", input) {
        Ok((rest, sign)) => {
            assert(sign@[0] == input@[0]);
            (rest, sign.get_char(0) != '-')
        },
        Err(_) => (input, true),
    };
    assert(after@ == unsigned_part(input@)) by {
        if input@.len() > 0 && (input@[0] == '+' || input@[0] == '-') {
            assert("+-"@.contains(input@[0])) by {
                if input@[0] == '+' {
                    assert("+-"@[0] == '+');
                } else {
                    assert("+-"@[1] == '-');
                }
            }
            assert(after@ =~= input@.drop_first());
        }
    }
    assert(positive == !(input@.len() > 0 && input@[0] == '-')) by {
        if input@.len() > 0 && input@[0] == '-' {
            assert("+-"@[1] == '-');
        }
    }
    assert("0x"@ =~= seq!['0', 'x']);
    assert("0o"@ =~= seq!['0', 'o']);
    assert("0b"@ =~= seq!['0', 'b']);
    match tag("0x", after) {
        Ok((r, p)) => {
            let (digits, rest) = digits_after(r, 16);
            return Ok((rest, (positive, (p, digits))));
        },
        Err(_) => {},
    }
    match tag("0o", after) {
        Ok((r, p)) => {
            let (digits, rest) = digits_after(r, 8);
            return Ok((rest, (positive, (p, digits))));
        },
        Err(_) => {},
    }
    match tag("0b", after) {
        Ok((r, p)) => {
            let (digits, rest) = digits_after(r, 2);
            return Ok((rest, (positive, (p, digits))));
        },
        Err(_) => {},
    }
    let f = |c: char| -> (b: bool)
        ensures
            b == numeric_char(c),
        { char_is_numeric(c) };
    match take_while(after, f) {
        Ok((rest, digits)) => {
            let prefix: &'a str = "";
            assert(prefix@ + digits@ + rest@ =~= after@);
            Ok((rest, (positive, (prefix, digits))))
        },
        Err(_) => unreached(),
    }
}


/// `p`, or nothing when `p` fails recoverably; an unrecoverable failure
/// is passed on.
pub fn opt<'a, O, P: Fn(&'a str) -> PResult<'a, O>>(p: P, input: &'a str) -> (r: PResult<'a, Option<O>>)
    requires
        forall|i: &'a str| #[trigger] p.requires((i,)),
    ensures
        exists|r1: PResult<'a, O>| #[trigger] p.ensures((input,), r1) && match r1 {
            Ok(x) => r == Ok::<(&'a str, Option<O>), ParseError<'a>>((x.0, Some(x.1))),
            Err(e) => if e.is_unrecoverable { r == Err::<(&'a str, Option<O>), ParseError<'a>>(e) } else { r == Ok::<(&'a str, Option<O>), ParseError<'a>>((input, None)) },
        },
{
    let r1 = p(input);
    match r1 {
        Ok(x) => Ok((x.0, Some(x.1))),
        Err(e) => {
            if e.is_unrecoverable {
                Err(e)
            } else {
                Ok((input, None))
            }
        },
    }
}

/// What `p` parsed, transformed by `fun`.
pub fn map<'a, O, R, P: Fn(&'a str) -> PResult<'a, O>, F: Fn(O) -> R>(p: P, fun: F, input: &'a str) -> (r: PResult<'a, R>)
    requires
        forall|i: &'a str| #[trigger] p.requires((i,)),
        forall|o: O| #[trigger] fun.requires((o,)),
    ensures
        exists|r1: PResult<'a, O>| #[trigger] p.ensures((input,), r1) && match r1 {
            Ok(x) => r is Ok && r->Ok_0.0 == x.0 && fun.ensures((x.1,), r->Ok_0.1),
            Err(e) => r == Err::<(&'a str, R), ParseError<'a>>(e),
        },
{
    let r1 = p(input);
    match r1 {
        Ok(x) => Ok((x.0, fun(x.1))),
        Err(e) => Err(e),
    }
}

/// What `p` parsed, checked and transformed by `fun`; a rejection by
/// `fun` is a recoverable error at `input`.
pub fn and_then<'a, O, R, P: Fn(&'a str) -> PResult<'a, O>, F: Fn(O) -> Result<R, ErrorKind>>(
    p: P,
    fun: F,
    input: &'a str,
) -> (r: PResult<'a, R>)
    requires
        forall|i: &'a str| #[trigger] p.requires((i,)),
        forall|o: O| #[trigger] fun.requires((o,)),
    ensures
        exists|r1: PResult<'a, O>| #[trigger] p.ensures((input,), r1) && match r1 {
            Ok(x) => exists|r2: Result<R, ErrorKind>| #[trigger] fun.ensures((x.1,), r2) && match r2 {
                Ok(v) => r is Ok && r->Ok_0.0 == x.0 && r->Ok_0.1 == v,
                Err(k) => r == Err::<(&'a str, R), ParseError<'a>>(ParseError { input, reason: k, is_unrecoverable: false }),
            },
            Err(e) => r == Err::<(&'a str, R), ParseError<'a>>(e),
        },
{
    let r1 = p(input);
    match r1 {
        Ok(x) => {
            let r2 = fun(x.1);
            match r2 {
                Ok(v) => Ok((x.0, v)),
                Err(k) => Err(ParseError::new(input, k)),
            }
        },
        Err(e) => Err(e),
    }
}

/// `p`, with any failure made unrecoverable.
pub fn mark_unrecoverable<'a, O, P: Fn(&'a str) -> PResult<'a, O>>(p: P, input: &'a str) -> (r: PResult<'a, O>)
    requires
        forall|i: &'a str| #[trigger] p.requires((i,)),
    ensures
        exists|r1: PResult<'a, O>| #[trigger] p.ensures((input,), r1) && match r1 {
            Ok(x) => r == Ok::<(&'a str, O), ParseError<'a>>(x),
            Err(e) => r == Err::<(&'a str, O), ParseError<'a>>(ParseError { is_unrecoverable: true, ..e }),
        },
{
    match p(input) {
        Ok(x) => Ok(x),
        Err(e) => Err(ParseError { is_unrecoverable: true, ..e }),
    }
}


/// Two parsers in sequence; returns what both parsed.
pub struct AndParser<A, B>(pub A, pub B);

impl<A, B> AndParser<A, B> {
    pub fn parse<'a, OA, OB>(&self, input: &'a str) -> (r: PResult<'a, (OA, OB)>)
        where
            A: Fn(&'a str) -> PResult<'a, OA>,
            B: Fn(&'a str) -> PResult<'a, OB>,
        requires
            forall|i: &'a str| #[trigger] self.0.requires((i,)),
            forall|i: &'a str| #[trigger] self.1.requires((i,)),
        ensures
            exists|r1: PResult<'a, OA>| #[trigger] self.0.ensures((input,), r1) && match r1 {
                Err(e) => r == Err::<(&'a str, (OA, OB)), ParseError<'a>>(e),
                Ok(x) => exists|r2: PResult<'a, OB>| #[trigger] self.1.ensures((x.0,), r2) && match r2 {
                    Err(e) => r == Err::<(&'a str, (OA, OB)), ParseError<'a>>(e),
                    Ok(y) => r == Ok::<(&'a str, (OA, OB)), ParseError<'a>>((y.0, (x.1, y.1))),
                },
            },
    {
        match (self.0)(input) {
            Err(e) => Err(e),
            Ok(x) => match (self.1)(x.0) {
                Err(e) => Err(e),
                Ok(y) => Ok((y.0, (x.1, y.1))),
            },
        }
    }
}

/// Two parsers in sequence, as a pair.
pub struct ParseAnd<T>(pub T);

impl<A, B> ParseAnd<(A, B)> {
    pub fn parse<'a, OA, OB>(&self, input: &'a str) -> (r: PResult<'a, (OA, OB)>)
        where
            A: Fn(&'a str) -> PResult<'a, OA>,
            B: Fn(&'a str) -> PResult<'a, OB>,
        requires
            forall|i: &'a str| #[trigger] self.0.0.requires((i,)),
            forall|i: &'a str| #[trigger] self.0.1.requires((i,)),
        ensures
            exists|r1: PResult<'a, OA>| #[trigger] self.0.0.ensures((input,), r1) && match r1 {
                Err(e) => r == Err::<(&'a str, (OA, OB)), ParseError<'a>>(e),
                Ok(x) => exists|r2: PResult<'a, OB>| #[trigger] self.0.1.ensures((x.0,), r2) && match r2 {
                    Err(e) => r == Err::<(&'a str, (OA, OB)), ParseError<'a>>(e),
                    Ok(y) => r == Ok::<(&'a str, (OA, OB)), ParseError<'a>>((y.0, (x.1, y.1))),
                },
            },
    {
        match (self.0.0)(input) {
            Err(e) => Err(e),
            Ok(x) => match (self.0.1)(x.0) {
                Err(e) => Err(e),
                Ok(y) => Ok((y.0, (x.1, y.1))),
            },
        }
    }
}

/// Alternatives: the first parser, or, when it fails recoverably, the
/// second on the same input.
pub struct ParseOr<T>(pub T);

impl<A, B> ParseOr<(A, B)> {
    pub fn parse<'a, O>(&self, input: &'a str) -> (r: PResult<'a, O>)
        where
            A: Fn(&'a str) -> PResult<'a, O>,
            B: Fn(&'a str) -> PResult<'a, O>,
        requires
            forall|i: &'a str| #[trigger] self.0.0.requires((i,)),
            forall|i: &'a str| #[trigger] self.0.1.requires((i,)),
        ensures
            exists|r1: PResult<'a, O>| #[trigger] self.0.0.ensures((input,), r1) && match r1 {
                Err(e) => if e.is_unrecoverable { r == r1 } else { self.0.1.ensures((input,), r) },
                Ok(_) => r == r1,
            },
    {
        let r1 = (self.0.0)(input);
        match r1 {
            Err(e) => {
                if e.is_unrecoverable {
                    Err(e)
                } else {
                    (self.0.1)(input)
                }
            },
            Ok(x) => Ok(x),
        }
    }
}


/// Parsers that may match in any order, each at most once: each round
/// tries the parsers that have not matched yet, first to last, and starts
/// over after a match; when none matches, the results so far are returned.
pub struct OptionalPermutation<T>(pub T);

impl<A, B> OptionalPermutation<(A, B)> {
    pub fn parse<'a, OA, OB>(&self, input: &'a str) -> (r: PResult<'a, (Option<OA>, Option<OB>)>)
        where
            A: Fn(&'a str) -> PResult<'a, OA>,
            B: Fn(&'a str) -> PResult<'a, OB>,
        requires
            forall|i: &'a str| #[trigger] self.0.0.requires((i,)),
            forall|i: &'a str| #[trigger] self.0.1.requires((i,)),
        ensures
            r is Ok ==> {
                &&& (r->Ok_0.1.0 matches Some(x) ==> exists|i: &'a str, ra: PResult<'a, OA>| #[trigger] self.0.0.ensures((i,), ra)
                    && ra is Ok && ra->Ok_0.1 == x)
                &&& (r->Ok_0.1.1 matches Some(y) ==> exists|i: &'a str, rb: PResult<'a, OB>| #[trigger] self.0.1.ensures((i,), rb)
                    && rb is Ok && rb->Ok_0.1 == y)
                &&& (r->Ok_0.1.0 is None ==> exists|e: ParseError<'a>| #[trigger] self.0.0.ensures((r->Ok_0.0,), Err(e))
                    && !e.is_unrecoverable)
                &&& (r->Ok_0.1.1 is None ==> exists|e: ParseError<'a>| #[trigger] self.0.1.ensures((r->Ok_0.0,), Err(e))
                    && !e.is_unrecoverable)
            },
            r matches Err(e) ==> e.is_unrecoverable && ((exists|i: &'a str| #[trigger] self.0.0.ensures((i,), Err(e)))
                || (exists|i: &'a str| #[trigger] self.0.1.ensures((i,), Err(e)))),
    {
        let mut res_a: Option<OA> = None;
        let mut res_b: Option<OB> = None;
        let mut cur = input;
        loop
            invariant
                forall|i: &'a str| #[trigger] self.0.0.requires((i,)),
                forall|i: &'a str| #[trigger] self.0.1.requires((i,)),
                res_a matches Some(x) ==> exists|i: &'a str, ra: PResult<'a, OA>| #[trigger] self.0.0.ensures((i,), ra)
                    && ra is Ok && ra->Ok_0.1 == x,
                res_b matches Some(y) ==> exists|i: &'a str, rb: PResult<'a, OB>| #[trigger] self.0.1.ensures((i,), rb)
                    && rb is Ok && rb->Ok_0.1 == y,
            ensures
                res_a matches Some(x) ==> exists|i: &'a str, ra: PResult<'a, OA>| #[trigger] self.0.0.ensures((i,), ra)
                    && ra is Ok && ra->Ok_0.1 == x,
                res_b matches Some(y) ==> exists|i: &'a str, rb: PResult<'a, OB>| #[trigger] self.0.1.ensures((i,), rb)
                    && rb is Ok && rb->Ok_0.1 == y,
                res_a is None ==> exists|e: ParseError<'a>| #[trigger] self.0.0.ensures((cur,), Err(e)) && !e.is_unrecoverable,
                res_b is None ==> exists|e: ParseError<'a>| #[trigger] self.0.1.ensures((cur,), Err(e)) && !e.is_unrecoverable,
            decreases (if res_a is None { 1int } else { 0int }) + (if res_b is None { 1int } else { 0int }),
        {
            if res_a.is_none() {
                let ra = (self.0.0)(cur);
                match ra {
                    Ok(x) => {
                        proof {
                            assert(self.0.0.ensures((cur,), ra));
                        }
                        cur = x.0;
                        res_a = Some(x.1);
                        continue;
                    },
                    Err(e) => {
                        if e.is_unrecoverable {
                            return Err(e);
                        }
                        proof {
                            assert(self.0.0.ensures((cur,), Err(e)));
                        }
                    },
                }
            }
            if res_b.is_none() {
                let rb = (self.0.1)(cur);
                match rb {
                    Ok(y) => {
                        proof {
                            assert(self.0.1.ensures((cur,), rb));
                        }
                        cur = y.0;
                        res_b = Some(y.1);
                        continue;
                    },
                    Err(e) => {
                        if e.is_unrecoverable {
                            return Err(e);
                        }
                        proof {
                            assert(self.0.1.ensures((cur,), Err(e)));
                        }
                    },
                }
            }
            break;
        }
        let ghost ga = res_a;
        let ghost gb = res_b;
        let r = Ok((cur, (res_a, res_b)));
        proof {
            assert(r->Ok_0.1.0 == ga);
            assert(r->Ok_0.1.1 == gb);
            assert(r->Ok_0.0 == cur);
        }
        r
    }
}

} // verus!
