//! The tokens a procedural macro is given, and where things are in them.
//!
//! The compiler hands a macro its input as a tree of tokens. Here each
//! token is its kind and its text as the compiler prints it, and a group
//! holds the tokens between its delimiters. What the macros read is said
//! as positions in those lists: the text of a run of tokens, written back
//! as the compiler writes a stream, is for the macro to ask of the
//! compiler.
use vstd::prelude::*;

verus! {

broadcast use vstd::std_specs::vec::group_vec_axioms, vstd::seq::group_seq_axioms;

/// What encloses a group.
#[derive(PartialEq, Eq, Structural, Clone, Copy)]
pub enum Delim {
    Parenthesis,
    Brace,
    Bracket,
    /// The invisible delimiters a macro variable is wrapped in.
    Invisible,
}

/// What a token is.
pub enum TokenKind {
    Ident,
    Punct(char),
    Literal,
    /// A delimited group, and the tokens inside it.
    Group(Delim, Vec<Token>),
}

/// One token: its kind, and its text as the compiler prints it.
pub struct Token {
    pub kind: TokenKind,
    pub text: String,
}

/// The tokens `start..end` of a list.
#[derive(Clone, Copy)]
pub struct Run {
    pub start: usize,
    pub end: usize,
}

pub open spec fn run_view(r: Run) -> (int, int) {
    (r.start as int, r.end as int)
}

pub open spec fn runs_view(rs: Seq<Run>) -> Seq<(int, int)> {
    Seq::new(rs.len(), |i: int| run_view(rs[i]))
}

/// `t` is the punctuation character `c`.
pub open spec fn is_punct(t: Token, c: char) -> bool {
    t.kind matches TokenKind::Punct(p) && p == c
}

/// `t` is the identifier `name`.
pub open spec fn is_ident(t: Token, name: Seq<char>) -> bool {
    t.kind is Ident && t.text@ == name
}

/// The tokens inside `t`, if it is a group.
pub open spec fn group_tokens(t: Token) -> Seq<Token> {
    match t.kind {
        TokenKind::Group(_, inner) => inner@,
        _ => Seq::empty(),
    }
}

/// The runs of `s` between its commas, the empty ones included: one
/// more than there are commas.
pub open spec fn comma_parts(s: Seq<Token>) -> Seq<(int, int)>
    decreases s.len(),
{
    if s.len() == 0 {
        seq![(0int, 0int)]
    } else {
        let p = comma_parts(s.drop_last());
        if is_punct(s.last(), ',') {
            p.push((s.len() as int, s.len() as int))
        } else {
            p.update(p.len() - 1, (p.last().0, s.len() as int))
        }
    }
}

/// Where `c` first stands among the tokens `lo..hi` of `s`.
pub open spec fn first_punct(s: Seq<Token>, lo: int, hi: int, c: char) -> Option<int>
    decreases hi - lo,
{
    if hi <= lo {
        None
    } else {
        match first_punct(s, lo, hi - 1, c) {
            Some(j) => Some(j),
            None => if is_punct(s[hi - 1], c) {
                Some(hi - 1)
            } else {
                None
            },
        }
    }
}

/// The texts of the tokens `lo..hi` of `s`, one after another.
pub open spec fn texts(s: Seq<Token>, lo: int, hi: int) -> Seq<char>
    decreases hi - lo,
{
    if hi <= lo {
        Seq::empty()
    } else {
        texts(s, lo, hi - 1) + s[hi - 1].text@
    }
}

/// The texts of the tokens `lo..hi` of `s`, a space between each two.
pub open spec fn spaced(s: Seq<Token>, lo: int, hi: int) -> Seq<char>
    decreases hi - lo,
{
    if hi <= lo {
        Seq::empty()
    } else if hi - 1 == lo {
        s[lo].text@
    } else {
        spaced(s, lo, hi - 1) + seq![' '] + s[hi - 1].text@
    }
}

/// Every list of parts has a last, which ends where the tokens do, and
/// every part is a run of them.
pub proof fn lemma_comma_parts(s: Seq<Token>)
    ensures
        comma_parts(s).len() >= 1,
        comma_parts(s).last().1 == s.len(),
        forall|k: int|
            0 <= k < comma_parts(s).len() ==> 0 <= #[trigger] comma_parts(s)[k].0 <= comma_parts(
                s,
            )[k].1 <= s.len(),
    decreases s.len(),
{
    if s.len() > 0 {
        lemma_comma_parts(s.drop_last());
    }
}

/// What `first_punct` finds is the first `c` of the run; nothing is
/// found only where the run holds none.
pub proof fn lemma_first_punct(s: Seq<Token>, lo: int, hi: int, c: char)
    ensures
        first_punct(s, lo, hi, c) matches Some(j) ==> {
            &&& lo <= j < hi
            &&& is_punct(s[j], c)
            &&& forall|k: int| lo <= k < j ==> !is_punct(#[trigger] s[k], c)
        },
        first_punct(s, lo, hi, c) is None ==> forall|k: int|
            lo <= k < hi ==> !is_punct(#[trigger] s[k], c),
    decreases hi - lo,
{
    if hi > lo {
        lemma_first_punct(s, lo, hi - 1, c);
    }
}

/// Split a list of tokens at its commas.
pub fn split_on_comma(tokens: &[Token]) -> (r: Vec<Run>)
    ensures
        runs_view(r@) == comma_parts(tokens@),
{
    let mut parts: Vec<Run> = Vec::new();
    parts.push(Run { start: 0, end: 0 });
    let mut i: usize = 0;
    proof {
        assert(tokens@.take(0) =~= Seq::<Token>::empty());
        assert(runs_view(parts@) =~= comma_parts(tokens@.take(0)));
    }
    while i < tokens.len()
        invariant
            i <= tokens@.len(),
            parts@.len() >= 1,
            runs_view(parts@) == comma_parts(tokens@.take(i as int)),
            parts@.last().end == i,
        decreases tokens@.len() - i,
    {
        let ghost before = parts@;
        assert(tokens@.take(i + 1).drop_last() =~= tokens@.take(i as int));
        let is_comma = match tokens[i].kind {
            TokenKind::Punct(p) => p == ',',
            _ => false,
        };
        if is_comma {
            parts.push(Run { start: i + 1, end: i + 1 });
            assert(runs_view(parts@) =~= comma_parts(tokens@.take(i + 1)));
        } else {
            let last = parts.len() - 1;
            let start = parts[last].start;
            parts.set(last, Run { start, end: i + 1 });
            assert(runs_view(parts@) =~= comma_parts(tokens@.take(i + 1)));
        }
        i += 1;
    }
    assert(tokens@.take(i as int) =~= tokens@);
    parts
}

/// Where `c` first stands among the tokens `lo..hi`.
pub fn find_punct(tokens: &[Token], lo: usize, hi: usize, c: char) -> (r: Option<usize>)
    requires
        lo <= hi <= tokens@.len(),
    ensures
        r matches Some(j) ==> first_punct(tokens@, lo as int, hi as int, c) == Some(j as int),
        r is None ==> first_punct(tokens@, lo as int, hi as int, c) is None,
{
    let mut i: usize = lo;
    while i < hi
        invariant
            lo <= i <= hi <= tokens@.len(),
            first_punct(tokens@, lo as int, i as int, c) is None,
        decreases hi - i,
    {
        let hit = match tokens[i].kind {
            TokenKind::Punct(p) => p == c,
            _ => false,
        };
        assert(first_punct(tokens@, lo as int, i + 1, c) == (if is_punct(tokens@[i as int], c) {
            Some(i as int)
        } else {
            None::<int>
        }));
        if hit {
            proof {
                lemma_first_punct_grows(tokens@, lo as int, i + 1, hi as int, c);
            }
            return Some(i);
        }
        i += 1;
    }
    None
}

/// A `c` found among the first tokens of a run is the one found in the
/// whole run.
pub proof fn lemma_first_punct_grows(s: Seq<Token>, lo: int, i: int, hi: int, c: char)
    requires
        lo <= i <= hi,
        first_punct(s, lo, i, c) is Some,
    ensures
        first_punct(s, lo, hi, c) == first_punct(s, lo, i, c),
    decreases hi - i,
{
    if i < hi {
        lemma_first_punct_grows(s, lo, i + 1, hi, c);
    }
}

/// The texts of the tokens `lo..hi`, one after another.
pub fn run_text(tokens: &[Token], lo: usize, hi: usize) -> (r: String)
    requires
        lo <= hi <= tokens@.len(),
    ensures
        r@ == texts(tokens@, lo as int, hi as int),
{
    let mut out = String::new();
    let mut i: usize = lo;
    while i < hi
        invariant
            lo <= i <= hi <= tokens@.len(),
            out@ == texts(tokens@, lo as int, i as int),
        decreases hi - i,
    {
        out.append(tokens[i].text.as_str());
        i += 1;
    }
    out
}

/// The texts of the tokens `lo..hi`, a space between each two.
pub fn spaced_text(tokens: &[Token], lo: usize, hi: usize) -> (r: String)
    requires
        lo <= hi <= tokens@.len(),
    ensures
        r@ == spaced(tokens@, lo as int, hi as int),
{
    let mut out = String::new();
    let mut i: usize = lo;
    while i < hi
        invariant
            lo <= i <= hi <= tokens@.len(),
            out@ == spaced(tokens@, lo as int, i as int),
        decreases hi - i,
    {
        if i > lo {
            proof {
                reveal_strlit(" ");
            }
            out.append(" ");
        }
        out.append(tokens[i].text.as_str());
        i += 1;
    }
    out
}

} // verus!
