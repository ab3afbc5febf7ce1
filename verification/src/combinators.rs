//! Parser combinators over string slices.
//!
//! A parser consumes a prefix of its input and returns the parsed value
//! together with the unconsumed remainder, or an error.  Each parser is a
//! small struct; the [`SpecParse`] trait gives it a mathematical meaning
//! (`spec_parse`, over `Seq<char>`), and the [`Parse`] trait ties the
//! executable `parse` method to that meaning.

use vstd::prelude::*;
use vstd::string::StrSliceExecFns;
use vstd::string::StringExecFns;

use crate::text;

verus! {

/// Error reported by parsers and combinators.
#[derive(Debug)]
pub enum ParserError {
    /// A scan for a required marker ran off the end of the input.
    UnexpectedEof,
    /// A descriptive failure, such as a missing literal tag.
    Detailed(String),
}

/// The spec-level shape of a [`ParserError`], with the message dropped.
pub enum ErrKind {
    Eof,
    Detailed,
}

impl ParserError {
    /// The spec-level shape of this error.
    pub open spec fn kind(&self) -> ErrKind {
        match self {
            ParserError::UnexpectedEof => ErrKind::Eof,
            ParserError::Detailed(_) => ErrKind::Detailed,
        }
    }
}

/// The mathematical meaning of a parser.
///
/// `spec_parse` maps the view of the input to either the model of the
/// parsed value paired with the remainder, or the shape of the error.
pub trait SpecParse {
    /// Model of the values this parser produces.
    type Model;

    /// The parser values this parser is prepared for (for instance, a
    /// search marker must not be empty).
    spec fn wf(&self) -> bool;

    /// What this parser means on input `s`.
    spec fn spec_parse(&self, s: Seq<char>) -> Result<(Self::Model, Seq<char>), ErrKind>;

    /// Progress: a successful parse leaves a suffix of its input, so the
    /// remainder never grows.
    proof fn lemma_parse_suffix(&self, s: Seq<char>)
        requires
            self.wf(),
        ensures
            self.spec_parse(s) matches Ok(p) ==> p.1.len() <= s.len() && p.1 == s.subrange(
                s.len() - p.1.len(),
                s.len() as int,
            ),
    ;
}

/// The executable side of a parser: `parse` must behave exactly as
/// `spec_parse` says.
pub trait Parse<'a>: SpecParse {
    /// Runtime type of the values this parser produces; its deep view is
    /// the model.
    type Output: DeepView<V = Self::Model>;

    /// Runs the parser on `input`.
    fn parse(&self, input: &'a str) -> (r: Result<(Self::Output, &'a str), ParserError>)
        requires
            self.wf(),
        ensures
            r matches Ok(p) ==> (self.spec_parse(input@) matches Ok(m) && p.0.deep_view() == m.0
                && p.1@ == m.1),
            r matches Err(e) ==> (self.spec_parse(input@) matches Err(k) && e.kind() == k),
    ;
}

/// Recognizes a fixed literal at the start of the input.
pub struct Tag {
    pub lit: &'static str,
}

/// Builds a parser that succeeds exactly when the input starts with
/// `lit`, returning the matched prefix.
pub fn tag(lit: &'static str) -> (r: Tag)
    ensures
        r.lit == lit,
        r.wf(),
{
    Tag { lit }
}

impl SpecParse for Tag {
    type Model = Seq<char>;

    open spec fn wf(&self) -> bool {
        true
    }

    open spec fn spec_parse(&self, s: Seq<char>) -> Result<(Seq<char>, Seq<char>), ErrKind> {
        if text::spec_starts_with(s, self.lit@) {
            Ok((s.subrange(0, self.lit@.len() as int), s.subrange(self.lit@.len() as int, s.len() as int)))
        } else {
            Err(ErrKind::Detailed)
        }
    }

    proof fn lemma_parse_suffix(&self, s: Seq<char>) {
    }
}

impl<'a> Parse<'a> for Tag {
    type Output = &'a str;

    fn parse(&self, input: &'a str) -> (r: Result<(&'a str, &'a str), ParserError>) {
        let n = input.unicode_len();
        let m = self.lit.unicode_len();
        if m <= n && text::matches_at(input, self.lit, 0, m) {
            Ok((input.substring_char(0, m), input.substring_char(m, n)))
        } else {
            Err(ParserError::Detailed(
                String::from_str("missing tag \"").concat(self.lit).concat("\""),
            ))
        }
    }
}

/// Consumes the longest prefix whose characters all lie in a set.
pub struct InSet {
    pub set: &'static str,
}

/// Builds a parser that consumes the longest prefix of characters drawn
/// from `set`.  It always succeeds, possibly consuming nothing.
pub fn in_set(set: &'static str) -> (r: InSet)
    ensures
        r.set == set,
        r.wf(),
{
    InSet { set }
}

impl SpecParse for InSet {
    type Model = Seq<char>;

    open spec fn wf(&self) -> bool {
        true
    }

    open spec fn spec_parse(&self, s: Seq<char>) -> Result<(Seq<char>, Seq<char>), ErrKind> {
        let e = text::run_in(s, self.set@);
        Ok((s.subrange(0, e), s.subrange(e, s.len() as int)))
    }

    proof fn lemma_parse_suffix(&self, s: Seq<char>) {
        text::lemma_run_pred(s, |c: char| self.set@.contains(c));
    }
}

impl<'a> Parse<'a> for InSet {
    type Output = &'a str;

    fn parse(&self, input: &'a str) -> (r: Result<(&'a str, &'a str), ParserError>) {
        let n = input.unicode_len();
        let e = text::scan_while_in(input, self.set);
        proof {
            text::lemma_run_pred(input@, |c: char| self.set@.contains(c));
        }
        Ok((input.substring_char(0, e), input.substring_char(e, n)))
    }
}

/// Consumes the longest prefix whose characters all lie outside a set.
pub struct NotInSet {
    pub set: &'static str,
}

/// Builds a parser that consumes the longest prefix of characters not in
/// `set`.  It fails with [`ParserError::UnexpectedEof`] when every
/// character of the input avoids the set: the stopping character must
/// exist.
pub fn not_in_set(set: &'static str) -> (r: NotInSet)
    ensures
        r.set == set,
        r.wf(),
{
    NotInSet { set }
}

impl SpecParse for NotInSet {
    type Model = Seq<char>;

    open spec fn wf(&self) -> bool {
        true
    }

    open spec fn spec_parse(&self, s: Seq<char>) -> Result<(Seq<char>, Seq<char>), ErrKind> {
        let e = text::run_out(s, self.set@);
        if e < s.len() {
            Ok((s.subrange(0, e), s.subrange(e, s.len() as int)))
        } else {
            Err(ErrKind::Eof)
        }
    }

    proof fn lemma_parse_suffix(&self, s: Seq<char>) {
        text::lemma_run_pred(s, |c: char| !self.set@.contains(c));
    }
}

impl<'a> Parse<'a> for NotInSet {
    type Output = &'a str;

    fn parse(&self, input: &'a str) -> (r: Result<(&'a str, &'a str), ParserError>) {
        let n = input.unicode_len();
        let e = text::scan_while_out(input, self.set);
        proof {
            text::lemma_run_pred(input@, |c: char| !self.set@.contains(c));
        }
        if e < n {
            Ok((input.substring_char(0, e), input.substring_char(e, n)))
        } else {
            Err(ParserError::UnexpectedEof)
        }
    }
}

/// The ASCII letters, both cases.
pub const ALPHA: &'static str = "abcdefghijklmnopqrstuvwxyzABCDEFGHIJKLMNOPQRSTUVWXYZ";

/// Builds a parser that consumes the longest run of ASCII letters.
pub fn alpha() -> (r: InSet)
    ensures
        r.set == ALPHA,
        r.wf(),
{
    in_set(ALPHA)
}

/// The whitespace characters skipped by [`ws`].
pub const WS_SET: &'static str = " \t\n";

/// Builds a parser that consumes the longest run of spaces, tabs and
/// newlines.  It always succeeds, possibly consuming nothing.
pub fn ws() -> (r: InSet)
    ensures
        r.set == WS_SET,
        r.wf(),
{
    in_set(WS_SET)
}

/// Consumes everything up to the first occurrence of a marker.
pub struct Until {
    pub end: &'static str,
}

/// Builds a parser that scans for the first occurrence of `end`,
/// returning the text before it and the remainder after it.  It fails
/// with [`ParserError::UnexpectedEof`] when `end` never occurs.
pub fn until(end: &'static str) -> (r: Until)
    requires
        end@.len() > 0,
    ensures
        r.end == end,
        r.wf(),
{
    Until { end }
}

impl SpecParse for Until {
    type Model = Seq<char>;

    open spec fn wf(&self) -> bool {
        self.end@.len() > 0
    }

    open spec fn spec_parse(&self, s: Seq<char>) -> Result<(Seq<char>, Seq<char>), ErrKind> {
        match text::spec_find(s, self.end@) {
            Some(i) => Ok((s.subrange(0, i), s.subrange(i + self.end@.len(), s.len() as int))),
            None => Err(ErrKind::Eof),
        }
    }

    proof fn lemma_parse_suffix(&self, s: Seq<char>) {
        text::lemma_find_first(s, self.end@);
    }
}

impl<'a> Parse<'a> for Until {
    type Output = &'a str;

    fn parse(&self, input: &'a str) -> (r: Result<(&'a str, &'a str), ParserError>) {
        match text::split_once_at(input, self.end) {
            Some((before, after)) => Ok((before, after)),
            None => Err(ParserError::UnexpectedEof),
        }
    }
}

/// Recognizes a span between a start literal and an end marker.
pub struct Delimited {
    pub start: &'static str,
    pub end: &'static str,
}

/// Builds a parser that requires the input to begin with `start`, scans
/// for the first following occurrence of `end`, and returns the text
/// strictly between them, with the remainder after `end`.  The two
/// markers may be equal.
pub fn delimited(start: &'static str, end: &'static str) -> (r: Delimited)
    requires
        end@.len() > 0,
    ensures
        r.start == start,
        r.end == end,
        r.wf(),
{
    Delimited { start, end }
}

impl SpecParse for Delimited {
    type Model = Seq<char>;

    open spec fn wf(&self) -> bool {
        self.end@.len() > 0
    }

    open spec fn spec_parse(&self, s: Seq<char>) -> Result<(Seq<char>, Seq<char>), ErrKind> {
        if !text::spec_starts_with(s, self.start@) {
            Err(ErrKind::Detailed)
        } else {
            let t = s.subrange(self.start@.len() as int, s.len() as int);
            match text::spec_find(t, self.end@) {
                Some(i) => Ok((t.subrange(0, i), t.subrange(i + self.end@.len(), t.len() as int))),
                None => Err(ErrKind::Eof),
            }
        }
    }

    proof fn lemma_parse_suffix(&self, s: Seq<char>) {
        if text::spec_starts_with(s, self.start@) {
            let t = s.subrange(self.start@.len() as int, s.len() as int);
            text::lemma_find_first(t, self.end@);
            match text::spec_find(t, self.end@) {
                Some(i) => {
                    let rem = t.subrange(i + self.end@.len(), t.len() as int);
                    assert(rem =~= s.subrange(s.len() - rem.len(), s.len() as int));
                },
                None => {},
            }
        }
    }
}

impl<'a> Parse<'a> for Delimited {
    type Output = &'a str;

    fn parse(&self, input: &'a str) -> (r: Result<(&'a str, &'a str), ParserError>) {
        match text::strip_prefix_str(input, self.start) {
            Some(t) => match text::split_once_at(t, self.end) {
                Some((before, after)) => Ok((before, after)),
                None => Err(ParserError::UnexpectedEof),
            },
            None => Err(ParserError::Detailed(
                String::from_str("expected delimited value starting with \"").concat(
                    self.start,
                ).concat("\""),
            )),
        }
    }
}

/// Wraps a parser so that failure is turned into an absent value.
pub struct Opt<P> {
    pub p: P,
}

/// Builds a parser that always succeeds: on inner success the value is
/// wrapped in `Some`, on inner failure the result is `None` and the
/// input is left untouched.
pub fn opt<P: SpecParse>(p: P) -> (r: Opt<P>)
    ensures
        r.p == p,
{
    Opt { p }
}

impl<P: SpecParse> SpecParse for Opt<P> {
    type Model = Option<P::Model>;

    open spec fn wf(&self) -> bool {
        self.p.wf()
    }

    open spec fn spec_parse(&self, s: Seq<char>) -> Result<(Option<P::Model>, Seq<char>), ErrKind> {
        match self.p.spec_parse(s) {
            Ok((v, rem)) => Ok((Some(v), rem)),
            Err(_) => Ok((None, s)),
        }
    }

    proof fn lemma_parse_suffix(&self, s: Seq<char>) {
        self.p.lemma_parse_suffix(s);
        match self.p.spec_parse(s) {
            Ok(_) => {},
            Err(_) => {
                assert(s =~= s.subrange(0, s.len() as int));
            },
        }
    }
}

impl<'a, P: Parse<'a>> Parse<'a> for Opt<P> {
    type Output = Option<P::Output>;

    fn parse(&self, input: &'a str) -> (r: Result<(Option<P::Output>, &'a str), ParserError>) {
        match self.p.parse(input) {
            Ok((v, rem)) => Ok((Some(v), rem)),
            Err(_) => Ok((None, input)),
        }
    }
}

/// Applies two parsers in sequence.
pub struct Pair<A, B> {
    pub a: A,
    pub b: B,
}

/// Builds a parser that runs `a`, feeds the remainder to `b`, and
/// returns both values as a tuple.  It fails as soon as either part
/// fails.
pub fn pair<A: SpecParse, B: SpecParse>(a: A, b: B) -> (r: Pair<A, B>)
    ensures
        r.a == a,
        r.b == b,
{
    Pair { a, b }
}

impl<A: SpecParse, B: SpecParse> SpecParse for Pair<A, B> {
    type Model = (A::Model, B::Model);

    open spec fn wf(&self) -> bool {
        self.a.wf() && self.b.wf()
    }

    open spec fn spec_parse(&self, s: Seq<char>) -> Result<
        ((A::Model, B::Model), Seq<char>),
        ErrKind,
    > {
        match self.a.spec_parse(s) {
            Ok((va, r1)) => match self.b.spec_parse(r1) {
                Ok((vb, r2)) => Ok(((va, vb), r2)),
                Err(e) => Err(e),
            },
            Err(e) => Err(e),
        }
    }

    proof fn lemma_parse_suffix(&self, s: Seq<char>) {
        self.a.lemma_parse_suffix(s);
        match self.a.spec_parse(s) {
            Ok((va, r1)) => {
                self.b.lemma_parse_suffix(r1);
                match self.b.spec_parse(r1) {
                    Ok((vb, r2)) => {
                        assert(r2 =~= s.subrange(s.len() - r2.len(), s.len() as int));
                    },
                    Err(_) => {},
                }
            },
            Err(_) => {},
        }
    }
}

impl<'a, A: Parse<'a>, B: Parse<'a>> Parse<'a> for Pair<A, B> {
    type Output = (A::Output, B::Output);

    fn parse(&self, input: &'a str) -> (r: Result<
        ((A::Output, B::Output), &'a str),
        ParserError,
    >) {
        let (va, r1) = match self.a.parse(input) {
            Ok(p) => p,
            Err(e) => {
                return Err(e);
            },
        };
        let (vb, r2) = match self.b.parse(r1) {
            Ok(p) => p,
            Err(e) => {
                return Err(e);
            },
        };
        Ok(((va, vb), r2))
    }
}

/// Applies three parsers in sequence, keeping the middle value.
pub struct Between<A, O, B> {
    pub open_p: A,
    pub content: O,
    pub close_p: B,
}

/// Builds a parser that runs `open_p`, `content` and `close_p` in
/// order, discarding the values of the outer two and returning only the
/// content value.  It fails as soon as any of the three fails.
pub fn between<A: SpecParse, O: SpecParse, B: SpecParse>(open_p: A, content: O, close_p: B) -> (r:
    Between<A, O, B>)
    ensures
        r.open_p == open_p,
        r.content == content,
        r.close_p == close_p,
{
    Between { open_p, content, close_p }
}

impl<A: SpecParse, O: SpecParse, B: SpecParse> SpecParse for Between<A, O, B> {
    type Model = O::Model;

    open spec fn wf(&self) -> bool {
        self.open_p.wf() && self.content.wf() && self.close_p.wf()
    }

    open spec fn spec_parse(&self, s: Seq<char>) -> Result<(O::Model, Seq<char>), ErrKind> {
        match self.open_p.spec_parse(s) {
            Ok((_, r1)) => match self.content.spec_parse(r1) {
                Ok((v, r2)) => match self.close_p.spec_parse(r2) {
                    Ok((_, r3)) => Ok((v, r3)),
                    Err(e) => Err(e),
                },
                Err(e) => Err(e),
            },
            Err(e) => Err(e),
        }
    }

    proof fn lemma_parse_suffix(&self, s: Seq<char>) {
        self.open_p.lemma_parse_suffix(s);
        match self.open_p.spec_parse(s) {
            Ok((_, r1)) => {
                self.content.lemma_parse_suffix(r1);
                match self.content.spec_parse(r1) {
                    Ok((_, r2)) => {
                        self.close_p.lemma_parse_suffix(r2);
                        match self.close_p.spec_parse(r2) {
                            Ok((_, r3)) => {
                                assert(r3 =~= s.subrange(s.len() - r3.len(), s.len() as int));
                            },
                            Err(_) => {},
                        }
                    },
                    Err(_) => {},
                }
            },
            Err(_) => {},
        }
    }
}

impl<'a, A: Parse<'a>, O: Parse<'a>, B: Parse<'a>> Parse<'a> for Between<A, O, B> {
    type Output = O::Output;

    fn parse(&self, input: &'a str) -> (r: Result<(O::Output, &'a str), ParserError>) {
        let (_, r1) = match self.open_p.parse(input) {
            Ok(p) => p,
            Err(e) => {
                return Err(e);
            },
        };
        let (v, r2) = match self.content.parse(r1) {
            Ok(p) => p,
            Err(e) => {
                return Err(e);
            },
        };
        let (_, r3) = match self.close_p.parse(r2) {
            Ok(p) => p,
            Err(e) => {
                return Err(e);
            },
        };
        Ok((v, r3))
    }
}

/// The meaning of zero-or-more repetition of `p`: apply `p` until the
/// input is exhausted or `p` fails, requiring strict progress at every
/// step.  A step that succeeds without consuming anything is a fault
/// that fails the whole repetition.
pub open spec fn spec_many0<P: SpecParse>(p: P, s: Seq<char>) -> Result<
    (Seq<P::Model>, Seq<char>),
    ErrKind,
>
    decreases s.len(),
{
    if s.len() == 0 {
        Ok((Seq::empty(), s))
    } else {
        match p.spec_parse(s) {
            Err(_) => Ok((Seq::empty(), s)),
            Ok((v, rem)) => {
                if rem.len() >= s.len() {
                    Err(ErrKind::Detailed)
                } else {
                    match spec_many0(p, rem) {
                        Ok((vs, fin)) => Ok((seq![v] + vs, fin)),
                        Err(e) => Err(e),
                    }
                }
            },
        }
    }
}

/// A successful repetition leaves a suffix of its input.
pub proof fn lemma_many0_suffix<P: SpecParse>(p: P, s: Seq<char>)
    requires
        p.wf(),
    ensures
        spec_many0(p, s) matches Ok(pr) ==> pr.1.len() <= s.len() && pr.1 == s.subrange(
            s.len() - pr.1.len(),
            s.len() as int,
        ),
    decreases s.len(),
{
    if s.len() == 0 {
        assert(s =~= s.subrange(0, 0));
    } else {
        match p.spec_parse(s) {
            Err(_) => {
                assert(s =~= s.subrange(0, s.len() as int));
            },
            Ok((v, rem)) => {
                if rem.len() < s.len() {
                    p.lemma_parse_suffix(s);
                    lemma_many0_suffix(p, rem);
                    match spec_many0(p, rem) {
                        Ok((vs, fin)) => {
                            assert(fin =~= s.subrange(s.len() - fin.len(), s.len() as int));
                        },
                        Err(_) => {},
                    }
                }
            },
        }
    }
}

/// Runs `p` repeatedly, collecting the values, exactly as
/// [`spec_many0`] describes.
fn run_many0<'a, P: Parse<'a>>(p: &P, input: &'a str) -> (r: Result<
    (Vec<P::Output>, &'a str),
    ParserError,
>)
    requires
        p.wf(),
    ensures
        r matches Ok(pr) ==> (spec_many0(*p, input@) matches Ok(m) && pr.0.deep_view() == m.0
            && pr.1@ == m.1),
        r matches Err(e) ==> (spec_many0(*p, input@) matches Err(k) && e.kind() == k),
{
    let mut cur: &'a str = input;
    let mut res: Vec<P::Output> = Vec::new();
    let mut n = cur.unicode_len();
    proof {
        assert(res.deep_view() =~= Seq::<P::Model>::empty());
    }
    loop
        invariant_except_break
            p.wf(),
            n == cur@.len(),
            spec_many0(*p, input@) == (match spec_many0(*p, cur@) {
                Ok(t) => Ok::<(Seq<P::Model>, Seq<char>), ErrKind>((res.deep_view() + t.0, t.1)),
                Err(e) => Err::<(Seq<P::Model>, Seq<char>), ErrKind>(e),
            }),
        ensures
            spec_many0(*p, input@) == Ok::<(Seq<P::Model>, Seq<char>), ErrKind>((
                res.deep_view(),
                cur@,
            )),
        decreases cur@.len(),
    {
        if n == 0 {
            proof {
                assert(res.deep_view() + Seq::<P::Model>::empty() =~= res.deep_view());
            }
            break;
        }
        match p.parse(cur) {
            Ok((v, rem)) => {
                let rl = rem.unicode_len();
                if rl >= n {
                    return Err(ParserError::Detailed(String::from_str("many0 didn't progress")));
                }
                proof {
                    let old_dv = res.deep_view();
                    let vdv = v.deep_view();
                    match spec_many0(*p, rem@) {
                        Ok((vs, fin)) => {
                            assert((old_dv + (seq![vdv] + vs)) =~= ((old_dv + seq![vdv]) + vs));
                        },
                        Err(_) => {},
                    }
                }
                let ghost old_res = res;
                res.push(v);
                proof {
                    assert(res.deep_view() =~= old_res.deep_view() + seq![v.deep_view()]);
                }
                cur = rem;
                n = rl;
            },
            Err(_) => {
                proof {
                    assert(res.deep_view() + Seq::<P::Model>::empty() =~= res.deep_view());
                }
                break;
            },
        }
    }
    Ok((res, cur))
}

/// Zero-or-more repetition of an inner parser.
pub struct Many0<P> {
    pub p: P,
}

/// Builds a parser that applies `p` as many times as it succeeds,
/// collecting the values.  Zero matches is a success; an inner success
/// that consumes nothing is a fault that fails the whole parse.
pub fn many0<P: SpecParse>(p: P) -> (r: Many0<P>)
    ensures
        r.p == p,
{
    Many0 { p }
}

impl<P: SpecParse> SpecParse for Many0<P> {
    type Model = Seq<P::Model>;

    open spec fn wf(&self) -> bool {
        self.p.wf()
    }

    open spec fn spec_parse(&self, s: Seq<char>) -> Result<(Seq<P::Model>, Seq<char>), ErrKind> {
        spec_many0(self.p, s)
    }

    proof fn lemma_parse_suffix(&self, s: Seq<char>) {
        lemma_many0_suffix(self.p, s);
    }
}

impl<'a, P: Parse<'a>> Parse<'a> for Many0<P> {
    type Output = Vec<P::Output>;

    fn parse(&self, input: &'a str) -> (r: Result<(Vec<P::Output>, &'a str), ParserError>) {
        run_many0(&self.p, input)
    }
}

/// One-or-more repetition of an inner parser.
pub struct Many1<P> {
    pub p: P,
}

/// Builds a parser that behaves as [`many0`] but fails when no match at
/// all was collected.
pub fn many1<P: SpecParse>(p: P) -> (r: Many1<P>)
    ensures
        r.p == p,
{
    Many1 { p }
}

impl<P: SpecParse> SpecParse for Many1<P> {
    type Model = Seq<P::Model>;

    open spec fn wf(&self) -> bool {
        self.p.wf()
    }

    open spec fn spec_parse(&self, s: Seq<char>) -> Result<(Seq<P::Model>, Seq<char>), ErrKind> {
        match spec_many0(self.p, s) {
            Ok((vs, rem)) => {
                if vs.len() == 0 {
                    Err(ErrKind::Detailed)
                } else {
                    Ok((vs, rem))
                }
            },
            Err(e) => Err(e),
        }
    }

    proof fn lemma_parse_suffix(&self, s: Seq<char>) {
        lemma_many0_suffix(self.p, s);
    }
}

impl<'a, P: Parse<'a>> Parse<'a> for Many1<P> {
    type Output = Vec<P::Output>;

    fn parse(&self, input: &'a str) -> (r: Result<(Vec<P::Output>, &'a str), ParserError>) {
        match run_many0(&self.p, input) {
            Ok((vs, rem)) => {
                if vs.len() == 0 {
                    proof {
                        assert(vs.deep_view().len() == 0);
                    }
                    Err(ParserError::Detailed(String::from_str("many1 got 0 items")))
                } else {
                    Ok((vs, rem))
                }
            },
            Err(e) => Err(e),
        }
    }
}

/// The meaning of exactly-`n`-fold repetition of `p`: the first inner
/// failure fails the whole parse, and no progress guard is applied.
pub open spec fn spec_min_times<P: SpecParse>(p: P, n: nat, s: Seq<char>) -> Result<
    (Seq<P::Model>, Seq<char>),
    ErrKind,
>
    decreases n,
{
    if n == 0 {
        Ok((Seq::empty(), s))
    } else {
        match p.spec_parse(s) {
            Err(e) => Err(e),
            Ok((v, rem)) => match spec_min_times(p, (n - 1) as nat, rem) {
                Ok((vs, fin)) => Ok((seq![v] + vs, fin)),
                Err(e) => Err(e),
            },
        }
    }
}

/// A successful fixed-count repetition leaves a suffix of its input.
pub proof fn lemma_min_times_suffix<P: SpecParse>(p: P, n: nat, s: Seq<char>)
    requires
        p.wf(),
    ensures
        spec_min_times(p, n, s) matches Ok(pr) ==> pr.1.len() <= s.len() && pr.1 == s.subrange(
            s.len() - pr.1.len(),
            s.len() as int,
        ),
    decreases n,
{
    if n == 0 {
        assert(s =~= s.subrange(0, s.len() as int));
    } else {
        match p.spec_parse(s) {
            Err(_) => {},
            Ok((v, rem)) => {
                p.lemma_parse_suffix(s);
                lemma_min_times_suffix(p, (n - 1) as nat, rem);
                match spec_min_times(p, (n - 1) as nat, rem) {
                    Ok((vs, fin)) => {
                        assert(fin =~= s.subrange(s.len() - fin.len(), s.len() as int));
                    },
                    Err(_) => {},
                }
            },
        }
    }
}

/// Exactly-`times`-fold repetition of an inner parser.
pub struct MinTimes<P> {
    pub times: usize,
    pub p: P,
}

/// Builds a parser that applies `p` exactly `times` times, collecting
/// the values and propagating the first inner failure.
pub fn min_times<P: SpecParse>(times: usize, p: P) -> (r: MinTimes<P>)
    ensures
        r.times == times,
        r.p == p,
{
    MinTimes { times, p }
}

impl<P: SpecParse> SpecParse for MinTimes<P> {
    type Model = Seq<P::Model>;

    open spec fn wf(&self) -> bool {
        self.p.wf()
    }

    open spec fn spec_parse(&self, s: Seq<char>) -> Result<(Seq<P::Model>, Seq<char>), ErrKind> {
        spec_min_times(self.p, self.times as nat, s)
    }

    proof fn lemma_parse_suffix(&self, s: Seq<char>) {
        lemma_min_times_suffix(self.p, self.times as nat, s);
    }
}

impl<'a, P: Parse<'a>> Parse<'a> for MinTimes<P> {
    type Output = Vec<P::Output>;

    fn parse(&self, input: &'a str) -> (r: Result<(Vec<P::Output>, &'a str), ParserError>) {
        let mut cur: &'a str = input;
        let mut res: Vec<P::Output> = Vec::new();
        let mut i: usize = 0;
        proof {
            assert(res.deep_view() =~= Seq::<P::Model>::empty());
        }
        while i < self.times
            invariant
                self.wf(),
                0 <= i <= self.times,
                spec_min_times(self.p, self.times as nat, input@) == (match spec_min_times(
                    self.p,
                    (self.times - i) as nat,
                    cur@,
                ) {
                    Ok(t) => Ok::<(Seq<P::Model>, Seq<char>), ErrKind>((
                        res.deep_view() + t.0,
                        t.1,
                    )),
                    Err(e) => Err::<(Seq<P::Model>, Seq<char>), ErrKind>(e),
                }),
            decreases self.times - i,
        {
            match self.p.parse(cur) {
                Ok((v, rem)) => {
                    proof {
                        let old_dv = res.deep_view();
                        let vdv = v.deep_view();
                        match spec_min_times(self.p, (self.times - i - 1) as nat, rem@) {
                            Ok((vs, fin)) => {
                                assert((old_dv + (seq![vdv] + vs)) =~= ((old_dv + seq![vdv])
                                    + vs));
                            },
                            Err(_) => {},
                        }
                    }
                    let ghost old_res = res;
                    res.push(v);
                    proof {
                        assert(res.deep_view() =~= old_res.deep_view() + seq![v.deep_view()]);
                    }
                    cur = rem;
                    i += 1;
                },
                Err(e) => {
                    return Err(e);
                },
            }
        }
        proof {
            assert(res.deep_view() + Seq::<P::Model>::empty() =~= res.deep_view());
        }
        Ok((res, cur))
    }
}

/// Consumes the whole remaining input.
pub struct Rest;

/// Builds a parser that always succeeds, returning the entire remaining
/// input as its value and leaving an empty remainder.
pub fn rest() -> (r: Rest)
    ensures
        r.wf(),
{
    Rest
}

impl SpecParse for Rest {
    type Model = Seq<char>;

    open spec fn wf(&self) -> bool {
        true
    }

    open spec fn spec_parse(&self, s: Seq<char>) -> Result<(Seq<char>, Seq<char>), ErrKind> {
        Ok((s, Seq::empty()))
    }

    proof fn lemma_parse_suffix(&self, s: Seq<char>) {
        assert(Seq::<char>::empty() =~= s.subrange(s.len() as int, s.len() as int));
    }
}

impl<'a> Parse<'a> for Rest {
    type Output = &'a str;

    fn parse(&self, input: &'a str) -> (r: Result<(&'a str, &'a str), ParserError>) {
        let n = input.unicode_len();
        let empty = input.substring_char(n, n);
        proof {
            assert(empty@ =~= Seq::<char>::empty());
            assert(input@.subrange(0, n as int) =~= input@);
        }
        Ok((input.substring_char(0, n), empty))
    }
}

/// Applies a pure transform to the value of an inner parser.
pub struct Mapped<P, F> {
    pub p: P,
    pub f: F,
}

/// Builds a parser that runs `p` and then applies `f` to the parsed
/// value.  The remainder is unaffected and no new failure mode is
/// introduced.
pub fn map<P, F>(p: P, f: F) -> (r: Mapped<P, F>)
    ensures
        r.p == p,
        r.f == f,
{
    Mapped { p, f }
}

impl<P, F> Mapped<P, F> {
    /// Runs the inner parser, then applies the transform to its value.
    pub fn parse<'a, O>(&self, input: &'a str) -> (r: Result<(O, &'a str), ParserError>) where
        P: Parse<'a>,
        F: Fn(P::Output) -> O,

        requires
            self.p.wf(),
            forall|v: P::Output| call_requires(self.f, (v,)),
        ensures
            r matches Ok(pr) ==> (self.p.spec_parse(input@) matches Ok(m) && pr.1@ == m.1 && (
            exists|v: P::Output| v.deep_view() == m.0 && call_ensures(self.f, (v,), pr.0))),
            r matches Err(e) ==> (self.p.spec_parse(input@) matches Err(k) && e.kind() == k),
    {
        match self.p.parse(input) {
            Ok((v, rem)) => {
                let ghost vg = v;
                let o = (self.f)(v);
                proof {
                    let m = self.p.spec_parse(input@)->Ok_0;
                    assert(vg.deep_view() == m.0 && call_ensures(self.f, (vg,), o));
                }
                Ok((o, rem))
            },
            Err(e) => Err(e),
        }
    }
}

/// Law: a repetition step that succeeds without consuming anything
/// fails the whole zero-or-more repetition, rather than looping or
/// succeeding emptily.
pub proof fn lemma_many0_no_progress<P: SpecParse>(p: P, s: Seq<char>)
    requires
        s.len() > 0,
        p.spec_parse(s) matches Ok(pr) && pr.1.len() >= s.len(),
    ensures
        spec_many0(p, s) is Err,
{
}

/// Law: when the inner parser fails on `s`, the optional parser
/// succeeds with no value and hands back exactly `s`, unconsumed.
pub proof fn lemma_opt_failure_keeps_input<P: SpecParse>(p: P, s: Seq<char>)
    requires
        p.spec_parse(s) is Err,
    ensures
        (Opt { p }).spec_parse(s) == Ok::<(Option<P::Model>, Seq<char>), ErrKind>((None, s)),
{
}

/// Law: `tag` succeeds exactly on inputs that start with its literal;
/// the value is then the literal itself and the remainder is the input
/// with the literal removed.
pub proof fn lemma_tag_exact(t: Tag, s: Seq<char>)
    ensures
        t.spec_parse(s) is Ok <==> text::spec_starts_with(s, t.lit@),
        t.spec_parse(s) matches Ok(pr) ==> pr.0 == t.lit@ && pr.1 == s.subrange(
            t.lit@.len() as int,
            s.len() as int,
        ),
{
    if text::spec_starts_with(s, t.lit@) {
        assert(s.subrange(0, t.lit@.len() as int) =~= t.lit@);
    }
}

} // verus!
