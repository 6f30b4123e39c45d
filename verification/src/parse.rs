//! Reading what the event macros are given: the declaration inside a
//! `define_event!`, the module `#[libside::events]` is put on, and the
//! structure `#[derive(SideGather)]` is put on.
//!
//! What is read is said as positions among the tokens; what the text of
//! a run of them is, as the compiler writes it back, the macro asks of
//! the compiler.
use vstd::prelude::*;

use crate::tokens::{
    comma_parts, find_punct, first_punct, group_tokens, is_ident, is_punct, lemma_comma_parts,
    lemma_first_punct, run_text, run_view, spaced, spaced_text, split_on_comma, texts, Delim, Run,
    Token, TokenKind,
};
use crate::codegen::{pair_views, text_result};
use crate::gather::{gather_spec, gather_text};
use crate::text::text_eq;

verus! {

broadcast use vstd::std_specs::vec::group_vec_axioms, vstd::seq::group_seq_axioms;

pub const SIDE_EXTERN: &'static str = "side_extern";
pub const KEY_PROVIDER: &'static str = "provider";
pub const KEY_EVENT: &'static str = "event";
pub const KEY_LEVEL: &'static str = "level";
pub const KEY_ATTRIBUTES: &'static str = "attributes";
pub const KEY_FIELDS: &'static str = "fields";
pub const E_EXTERN: &'static str = "side: side_extern() takes the name of a define_type!";
pub const E_FIELD: &'static str = "side: an event field is written `name: type'";
pub const E_NAME: &'static str = "side: define_event! expects a name";
pub const E_KEY_VALUE: &'static str = "side: define_event! expects `key: value'";
pub const E_ATTRIBUTES: &'static str = "side: the attributes of an event go in brackets";
pub const E_FIELDS: &'static str = "side: the fields of an event go in brackets";
pub const E_UNKNOWN_0: &'static str = "side: unknown key `";
pub const E_UNKNOWN_1: &'static str = "' in define_event!";
pub const KEY_STRUCT: &'static str = "struct";
pub const E_GATHER_FIELDS: &'static str = "SideGather requires named fields";
pub const E_GATHER_NAME: &'static str = "SideGather requires a named struct";
pub const E_GATHER_STRUCT: &'static str = "SideGather can only be derived for structs";
pub const E_GATHER_BRACES: &'static str = "SideGather requires a struct with named fields";
pub const KEY_MOD: &'static str = "mod";
pub const KEY_DEFINE_EVENT: &'static str = "define_event";
pub const E_MODULE: &'static str = "side: #[events] applies to a module";
pub const E_MODULE_NAME: &'static str = "side: #[events] expects a named module";
pub const E_MODULE_BODY: &'static str = "side: #[events] expects a module with a body";
pub const E_DECLARATION: &'static str = "side: define_event! expects its declaration in brackets";
pub const E_NO_EVENTS: &'static str = "side: #[events] found no define_event! in the module";
pub const E_INCOMPLETE: &'static str = "side: an event needs a provider, an event name and a level";

/// What reading a declaration comes to.
pub enum Reading<T> {
    Read(T),
    /// The declaration is refused, for the reason given.
    Refused(String),
    /// The declaration ends where a token must follow: a `:` with
    /// nothing after it where the value must be a group, or a field
    /// which begins with its `:`. Reading it takes an index past the
    /// end of a list.
    Cut,
}

/// The same, as views.
pub enum Outcome<T> {
    Read(T),
    Refused(Seq<char>),
    Cut,
}

/// The kind of a field of an event, by position among the tokens of the
/// event's field list.
pub enum FieldKindAt {
    /// A Rust type: these tokens.
    Rust(Run),
    /// `side_extern(PATH)`: the parenthesised group which holds the path.
    Extern(usize),
}

/// A field of an event. `list` is where the group of fields it was
/// read from stands among the event's tokens; its kind and its
/// attributes are positions among the tokens of that group.
pub struct FieldAt {
    pub list: usize,
    pub name: String,
    pub kind: FieldKindAt,
    /// The group of the attributes of its type, if it has one.
    pub attributes: Option<usize>,
}

/// An event, by position among the tokens of its declaration.
pub struct EventAt {
    pub name: String,
    pub provider: Run,
    pub event: Run,
    pub level: Run,
    /// The group of the event's attributes, if it has one.
    pub attributes: Option<usize>,
    pub fields: Vec<FieldAt>,
}

pub enum KindView {
    Rust(int, int),
    Extern(int),
}

pub struct FieldView {
    pub list: int,
    pub name: Seq<char>,
    pub kind: KindView,
    pub attributes: Option<int>,
}

pub struct EventView {
    pub name: Seq<char>,
    pub provider: (int, int),
    pub event: (int, int),
    pub level: (int, int),
    pub attributes: Option<int>,
    pub fields: Seq<FieldView>,
}

pub open spec fn opt_view(o: Option<usize>) -> Option<int> {
    match o {
        Some(i) => Some(i as int),
        None => None,
    }
}

pub open spec fn kind_view(k: FieldKindAt) -> KindView {
    match k {
        FieldKindAt::Rust(r) => KindView::Rust(r.start as int, r.end as int),
        FieldKindAt::Extern(i) => KindView::Extern(i as int),
    }
}

pub open spec fn field_view(f: FieldAt) -> FieldView {
    FieldView { list: f.list as int, name: f.name@, kind: kind_view(f.kind), attributes: opt_view(f.attributes) }
}

pub open spec fn fields_view(fs: Seq<FieldAt>) -> Seq<FieldView> {
    Seq::new(fs.len(), |i: int| field_view(fs[i]))
}

pub open spec fn event_view(e: EventAt) -> EventView {
    EventView {
        name: e.name@,
        provider: run_view(e.provider),
        event: run_view(e.event),
        level: run_view(e.level),
        attributes: opt_view(e.attributes),
        fields: fields_view(e.fields@),
    }
}

pub open spec fn kind_result(r: Result<FieldKindAt, String>) -> Result<KindView, Seq<char>> {
    match r {
        Ok(k) => Ok(kind_view(k)),
        Err(e) => Err(e@),
    }
}

pub open spec fn field_result(r: Result<(FieldKindAt, Option<usize>), String>) -> Result<
    (KindView, Option<int>),
    Seq<char>,
> {
    match r {
        Ok((k, a)) => Ok((kind_view(k), opt_view(a))),
        Err(e) => Err(e@),
    }
}

/// `t` is a group between the delimiters `d`.
pub open spec fn is_group_in(t: Token, d: Delim) -> bool {
    t.kind matches TokenKind::Group(e, _) && e == d
}

/// What the tokens `lo..hi` of a field list name as the kind of a field:
/// `side_extern(PATH)`, or else a Rust type.
pub open spec fn field_kind_spec(g: Seq<Token>, lo: int, hi: int) -> Result<KindView, Seq<char>> {
    if hi - lo >= 2 && is_ident(g[lo], SIDE_EXTERN@) && is_group_in(g[lo + 1], Delim::Parenthesis) {
        if hi - lo != 2 || group_tokens(g[lo + 1]).len() == 0 {
            Err(E_EXTERN@)
        } else {
            Ok(KindView::Extern(lo + 1))
        }
    } else {
        Ok(KindView::Rust(lo, hi))
    }
}

/// What the tokens `lo..hi` after the `:` of a field are: its kind, and
/// the attributes of its type where a bracket group ends them.
///
/// A bracket group at the end is that list, unless it is the whole of
/// what was written, which makes it an array type instead. An event
/// field cannot be an array -- `FieldType` is not implemented for one --
/// so nothing is lost by reading it that way round.
pub open spec fn field_spec(g: Seq<Token>, lo: int, hi: int) -> Result<(KindView, Option<int>), Seq<char>> {
    if hi - lo > 1 && is_group_in(g[hi - 1], Delim::Bracket) {
        match field_kind_spec(g, lo, hi - 1) {
            Ok(k) => Ok((k, Some(hi - 1))),
            Err(e) => Err(e),
        }
    } else {
        match field_kind_spec(g, lo, hi) {
            Ok(k) => Ok((k, None)),
            Err(e) => Err(e),
        }
    }
}

/// What a field kind is: `side_extern(PATH)` names a structure described
/// elsewhere; anything else is a Rust type.
pub fn parse_field_kind(tokens: &[Token], lo: usize, hi: usize) -> (r: Result<FieldKindAt, String>)
    requires
        lo <= hi <= tokens@.len(),
    ensures
        kind_result(r) == field_kind_spec(tokens@, lo as int, hi as int),
{
    if hi - lo >= 2 {
        let first = &tokens[lo];
        let second = &tokens[lo + 1];
        let named = match first.kind {
            TokenKind::Ident => text_eq(first.text.as_str(), SIDE_EXTERN),
            _ => false,
        };
        if named {
            if let TokenKind::Group(d, inner) = &second.kind {
                if *d == Delim::Parenthesis {
                    if hi - lo != 2 || inner.len() == 0 {
                        return Err(String::from_str(E_EXTERN));
                    }
                    return Ok(FieldKindAt::Extern(lo + 1));
                }
            }
        }
    }
    Ok(FieldKindAt::Rust(Run { start: lo, end: hi }))
}

/// What follows the `:` of a field: its kind, and the group of the
/// attributes of its type where one ends it.
pub fn parse_field(tokens: &[Token], lo: usize, hi: usize) -> (r: Result<(FieldKindAt, Option<usize>), String>)
    requires
        lo <= hi <= tokens@.len(),
    ensures
        field_result(r) == field_spec(tokens@, lo as int, hi as int),
{
    if hi - lo > 1 {
        if let TokenKind::Group(d, _) = &tokens[hi - 1].kind {
            if *d == Delim::Bracket {
                return match parse_field_kind(tokens, lo, hi - 1) {
                    Ok(k) => Ok((k, Some(hi - 1))),
                    Err(e) => Err(e),
                };
            }
        }
    }
    match parse_field_kind(tokens, lo, hi) {
        Ok(k) => Ok((k, None)),
        Err(e) => Err(e),
    }
}

pub open spec fn fields_outcome(r: Reading<Vec<FieldAt>>) -> Outcome<Seq<FieldView>> {
    match r {
        Reading::Read(fs) => Outcome::Read(fields_view(fs@)),
        Reading::Refused(e) => Outcome::Refused(e@),
        Reading::Cut => Outcome::Cut,
    }
}

pub open spec fn field_outcome(r: Reading<FieldAt>) -> Outcome<FieldView> {
    match r {
        Reading::Read(f) => Outcome::Read(field_view(f)),
        Reading::Refused(e) => Outcome::Refused(e@),
        Reading::Cut => Outcome::Cut,
    }
}

pub open spec fn event_outcome(r: Reading<EventAt>) -> Outcome<EventView> {
    match r {
        Reading::Read(e) => Outcome::Read(event_view(e)),
        Reading::Refused(e) => Outcome::Refused(e@),
        Reading::Cut => Outcome::Cut,
    }
}

/// The field written in the non-empty run `lo..hi` of a field list,
/// `name: type`, read from the group which stands at `list`.
pub open spec fn field_item_spec(g: Seq<Token>, lo: int, hi: int, list: int) -> Outcome<FieldView> {
    match first_punct(g, lo, hi, ':') {
        None => Outcome::Refused(E_FIELD@),
        Some(c) => if c == lo {
            Outcome::Cut
        } else if !(g[c - 1].kind is Ident) {
            Outcome::Refused(E_FIELD@)
        } else {
            match field_spec(g, c + 1, hi) {
                Err(e) => Outcome::Refused(e),
                Ok((k, a)) => Outcome::Read(
                    FieldView { list, name: g[c - 1].text@, kind: k, attributes: a },
                ),
            }
        },
    }
}

/// The fields written in the first `k` parts of a field list, the empty
/// parts skipped, up to the first which is refused or cut.
pub open spec fn field_items_upto(g: Seq<Token>, list: int, k: nat) -> Outcome<Seq<FieldView>>
    decreases k,
{
    if k == 0 {
        Outcome::Read(Seq::empty())
    } else {
        match field_items_upto(g, list, (k - 1) as nat) {
            Outcome::Read(fs) => {
                let p = comma_parts(g)[k - 1];
                if p.0 == p.1 {
                    Outcome::Read(fs)
                } else {
                    match field_item_spec(g, p.0, p.1, list) {
                        Outcome::Read(f) => Outcome::Read(fs.push(f)),
                        Outcome::Refused(e) => Outcome::Refused(e),
                        Outcome::Cut => Outcome::Cut,
                    }
                }
            },
            Outcome::Refused(e) => Outcome::Refused(e),
            Outcome::Cut => Outcome::Cut,
        }
    }
}

/// The fields of the list `g`, read from the group which stands at
/// `list`.
pub open spec fn field_list_spec(g: Seq<Token>, list: int) -> Outcome<Seq<FieldView>> {
    field_items_upto(g, list, comma_parts(g).len())
}

/// Once a part is refused or cut, so is every longer list of parts.
pub proof fn lemma_field_items_stop(g: Seq<Token>, list: int, k: nat)
    requires
        k <= comma_parts(g).len(),
        !(field_items_upto(g, list, k) is Read),
    ensures
        field_list_spec(g, list) == field_items_upto(g, list, k),
    decreases comma_parts(g).len() - k,
{
    if k < comma_parts(g).len() {
        lemma_field_items_stop(g, list, k + 1);
    }
}

/// Read the field written in the non-empty run `lo..hi` of a field list.
pub fn parse_field_item(g: &[Token], lo: usize, hi: usize, list: usize) -> (r: Reading<FieldAt>)
    requires
        lo < hi <= g@.len(),
    ensures
        field_outcome(r) == field_item_spec(g@, lo as int, hi as int, list as int),
{
    proof {
        lemma_first_punct(g@, lo as int, hi as int, ':');
    }
    match find_punct(g, lo, hi, ':') {
        None => Reading::Refused(String::from_str(E_FIELD)),
        Some(c) => {
            if c == lo {
                return Reading::Cut;
            }
            let named = match g[c - 1].kind {
                TokenKind::Ident => true,
                _ => false,
            };
            if !named {
                return Reading::Refused(String::from_str(E_FIELD));
            }
            match parse_field(g, c + 1, hi) {
                Err(e) => Reading::Refused(e),
                Ok((kind, attributes)) => Reading::Read(
                    FieldAt { list, name: g[c - 1].text.clone(), kind, attributes },
                ),
            }
        },
    }
}

/// Read the fields of an event from the list `g`, the tokens of the
/// group which stands at `list` among the event's.
pub fn parse_field_list(g: &[Token], list: usize) -> (r: Reading<Vec<FieldAt>>)
    ensures
        fields_outcome(r) == field_list_spec(g@, list as int),
{
    let parts = split_on_comma(g);
    proof {
        lemma_comma_parts(g@);
    }
    let mut fields: Vec<FieldAt> = Vec::new();
    let mut k: usize = 0;
    assert(fields_view(fields@) =~= Seq::<FieldView>::empty());
    while k < parts.len()
        invariant
            crate::tokens::runs_view(parts@) == comma_parts(g@),
            k <= parts@.len(),
            forall|j: int|
                0 <= j < comma_parts(g@).len() ==> 0 <= #[trigger] comma_parts(g@)[j].0
                    <= comma_parts(g@)[j].1 <= g@.len(),
            field_items_upto(g@, list as int, k as nat) == Outcome::Read(fields_view(fields@)),
        decreases parts@.len() - k,
    {
        let p = parts[k];
        assert(crate::tokens::runs_view(parts@)[k as int] == run_view(parts@[k as int]));
        assert(run_view(p) == comma_parts(g@)[k as int]);
        assert(0 <= comma_parts(g@)[k as int].0);
        if p.start < p.end {
            match parse_field_item(g, p.start, p.end, list) {
                Reading::Read(f) => {
                    let ghost before = fields_view(fields@);
                    let ghost fv = field_view(f);
                    fields.push(f);
                    assert(fields_view(fields@) =~= before.push(fv));
                },
                Reading::Refused(e) => {
                    proof {
                        lemma_field_items_stop(g@, list as int, (k + 1) as nat);
                    }
                    return Reading::Refused(e);
                },
                Reading::Cut => {
                    proof {
                        lemma_field_items_stop(g@, list as int, (k + 1) as nat);
                    }
                    return Reading::Cut;
                },
            }
        }
        k += 1;
    }
    Reading::Read(fields)
}

/// An event of which nothing is read yet.
pub open spec fn blank_event() -> EventView {
    EventView {
        name: Seq::empty(),
        provider: (0, 0),
        event: (0, 0),
        level: (0, 0),
        attributes: None,
        fields: Seq::empty(),
    }
}

/// One more non-empty part `lo..hi` of a declaration: its name first,
/// then `key: value` after `key: value`, a later value of a key taking
/// the place of an earlier one and a later list of fields adding to the
/// earlier.
pub open spec fn event_part_spec(s: Seq<Token>, lo: int, hi: int, st: (bool, EventView)) -> Outcome<
    (bool, EventView),
> {
    let ev = st.1;
    if !st.0 {
        if s[lo].kind is Ident {
            Outcome::Read((true, EventView { name: s[lo].text@, ..ev }))
        } else {
            Outcome::Refused(E_NAME@)
        }
    } else {
        match first_punct(s, lo, hi, ':') {
            None => Outcome::Refused(E_KEY_VALUE@),
            Some(c) => {
                let key = texts(s, lo, c);
                if key == KEY_PROVIDER@ {
                    Outcome::Read((true, EventView { provider: (c + 1, hi), ..ev }))
                } else if key == KEY_EVENT@ {
                    Outcome::Read((true, EventView { event: (c + 1, hi), ..ev }))
                } else if key == KEY_LEVEL@ {
                    Outcome::Read((true, EventView { level: (c + 1, hi), ..ev }))
                } else if key == KEY_ATTRIBUTES@ {
                    if c + 1 >= hi {
                        Outcome::Cut
                    } else if s[c + 1].kind is Group {
                        Outcome::Read((true, EventView { attributes: Some(c + 1), ..ev }))
                    } else {
                        Outcome::Refused(E_ATTRIBUTES@)
                    }
                } else if key == KEY_FIELDS@ {
                    if c + 1 >= hi {
                        Outcome::Cut
                    } else if s[c + 1].kind is Group {
                        match field_list_spec(group_tokens(s[c + 1]), c + 1) {
                            Outcome::Read(fs) => Outcome::Read(
                                (true, EventView { fields: ev.fields + fs, ..ev }),
                            ),
                            Outcome::Refused(e) => Outcome::Refused(e),
                            Outcome::Cut => Outcome::Cut,
                        }
                    } else {
                        Outcome::Refused(E_FIELDS@)
                    }
                } else {
                    Outcome::Refused(E_UNKNOWN_0@ + key + E_UNKNOWN_1@)
                }
            },
        }
    }
}

/// The first `k` parts of a declaration, the empty ones skipped, up to
/// the first which is refused or cut; and whether the name was read.
pub open spec fn event_parts_upto(s: Seq<Token>, k: nat) -> Outcome<(bool, EventView)>
    decreases k,
{
    if k == 0 {
        Outcome::Read((false, blank_event()))
    } else {
        match event_parts_upto(s, (k - 1) as nat) {
            Outcome::Read(st) => {
                let p = comma_parts(s)[k - 1];
                if p.0 == p.1 {
                    Outcome::Read(st)
                } else {
                    event_part_spec(s, p.0, p.1, st)
                }
            },
            Outcome::Refused(e) => Outcome::Refused(e),
            Outcome::Cut => Outcome::Cut,
        }
    }
}

/// What the declaration inside a `define_event!` is: a name, then
/// `provider`, `event` and `level`, none of which may be left empty, and
/// where it has them `attributes` and `fields`.
pub open spec fn event_spec(s: Seq<Token>) -> Outcome<EventView> {
    match event_parts_upto(s, comma_parts(s).len()) {
        Outcome::Read((named, ev)) => if !named {
            Outcome::Refused(E_NAME@)
        } else if ev.provider.0 == ev.provider.1 || ev.event.0 == ev.event.1 || ev.level.0
            == ev.level.1 {
            Outcome::Refused(E_INCOMPLETE@)
        } else {
            Outcome::Read(ev)
        },
        Outcome::Refused(e) => Outcome::Refused(e),
        Outcome::Cut => Outcome::Cut,
    }
}

pub proof fn lemma_event_parts_stop(s: Seq<Token>, k: nat)
    requires
        k <= comma_parts(s).len(),
        !(event_parts_upto(s, k) is Read),
    ensures
        event_parts_upto(s, comma_parts(s).len()) == event_parts_upto(s, k),
    decreases comma_parts(s).len() - k,
{
    if k < comma_parts(s).len() {
        lemma_event_parts_stop(s, k + 1);
    }
}

/// Read the declaration inside a `define_event!`.
pub fn parse_event(tokens: &[Token]) -> (r: Reading<EventAt>)
    ensures
        event_outcome(r) == event_spec(tokens@),
{
    let parts = split_on_comma(tokens);
    proof {
        lemma_comma_parts(tokens@);
    }
    let ghost s = tokens@;
    let mut named = false;
    let mut name = String::new();
    let mut provider = Run { start: 0, end: 0 };
    let mut event = Run { start: 0, end: 0 };
    let mut level = Run { start: 0, end: 0 };
    let mut attributes: Option<usize> = None;
    let mut fields: Vec<FieldAt> = Vec::new();
    let mut k: usize = 0;
    assert(fields_view(fields@) =~= Seq::<FieldView>::empty());
    assert(name@ =~= Seq::<char>::empty());
    while k < parts.len()
        invariant
            s == tokens@,
            crate::tokens::runs_view(parts@) == comma_parts(s),
            k <= parts@.len(),
            forall|j: int|
                0 <= j < comma_parts(s).len() ==> 0 <= #[trigger] comma_parts(s)[j].0
                    <= comma_parts(s)[j].1 <= s.len(),
            event_parts_upto(s, k as nat) == Outcome::Read(
                (
                    named,
                    EventView {
                        name: name@,
                        provider: run_view(provider),
                        event: run_view(event),
                        level: run_view(level),
                        attributes: opt_view(attributes),
                        fields: fields_view(fields@),
                    },
                ),
            ),
        decreases parts@.len() - k,
    {
        let p = parts[k];
        assert(crate::tokens::runs_view(parts@)[k as int] == run_view(parts@[k as int]));
        assert(run_view(p) == comma_parts(s)[k as int]);
        assert(0 <= comma_parts(s)[k as int].0);
        let lo = p.start;
        let hi = p.end;
        if lo < hi {
            if !named {
                let is_name = match tokens[lo].kind {
                    TokenKind::Ident => true,
                    _ => false,
                };
                if !is_name {
                    proof {
                        lemma_event_parts_stop(s, (k + 1) as nat);
                    }
                    return Reading::Refused(String::from_str(E_NAME));
                }
                named = true;
                name = tokens[lo].text.clone();
            } else {
                proof {
                    lemma_first_punct(s, lo as int, hi as int, ':');
                }
                match find_punct(tokens, lo, hi, ':') {
                    None => {
                        proof {
                            lemma_event_parts_stop(s, (k + 1) as nat);
                        }
                        return Reading::Refused(String::from_str(E_KEY_VALUE));
                    },
                    Some(c) => {
                        let key = run_text(tokens, lo, c);
                        if text_eq(key.as_str(), KEY_PROVIDER) {
                            provider = Run { start: c + 1, end: hi };
                        } else if text_eq(key.as_str(), KEY_EVENT) {
                            event = Run { start: c + 1, end: hi };
                        } else if text_eq(key.as_str(), KEY_LEVEL) {
                            level = Run { start: c + 1, end: hi };
                        } else if text_eq(key.as_str(), KEY_ATTRIBUTES) {
                            if c + 1 >= hi {
                                proof {
                                    lemma_event_parts_stop(s, (k + 1) as nat);
                                }
                                return Reading::Cut;
                            }
                            let grouped = match tokens[c + 1].kind {
                                TokenKind::Group(_, _) => true,
                                _ => false,
                            };
                            if !grouped {
                                proof {
                                    lemma_event_parts_stop(s, (k + 1) as nat);
                                }
                                return Reading::Refused(String::from_str(E_ATTRIBUTES));
                            }
                            attributes = Some(c + 1);
                        } else if text_eq(key.as_str(), KEY_FIELDS) {
                            if c + 1 >= hi {
                                proof {
                                    lemma_event_parts_stop(s, (k + 1) as nat);
                                }
                                return Reading::Cut;
                            }
                            match &tokens[c + 1].kind {
                                TokenKind::Group(_, inner) => {
                                    match parse_field_list(inner.as_slice(), c + 1) {
                                        Reading::Read(mut more) => {
                                            let ghost before = fields_view(fields@);
                                            let ghost added = fields_view(more@);
                                            fields.append(&mut more);
                                            assert(fields_view(fields@) =~= before + added);
                                        },
                                        Reading::Refused(e) => {
                                            proof {
                                                lemma_event_parts_stop(s, (k + 1) as nat);
                                            }
                                            return Reading::Refused(e);
                                        },
                                        Reading::Cut => {
                                            proof {
                                                lemma_event_parts_stop(s, (k + 1) as nat);
                                            }
                                            return Reading::Cut;
                                        },
                                    }
                                },
                                _ => {
                                    proof {
                                        lemma_event_parts_stop(s, (k + 1) as nat);
                                    }
                                    return Reading::Refused(String::from_str(E_FIELDS));
                                },
                            }
                        } else {
                            let mut e = String::from_str(E_UNKNOWN_0);
                            e.append(key.as_str());
                            e.append(E_UNKNOWN_1);
                            proof {
                                lemma_event_parts_stop(s, (k + 1) as nat);
                            }
                            return Reading::Refused(e);
                        }
                    },
                }
            }
        }
        k += 1;
    }
    if !named {
        return Reading::Refused(String::from_str(E_NAME));
    }
    if provider.start == provider.end || event.start == event.end || level.start == level.end {
        return Reading::Refused(String::from_str(E_INCOMPLETE));
    }
    Reading::Read(EventAt { name, provider, event, level, attributes, fields })
}

/* What `#[derive(SideGather)]` is put on. */

/// Where the last identifier stands among the tokens `lo..hi`.
pub open spec fn last_ident(s: Seq<Token>, lo: int, hi: int) -> Option<int>
    decreases hi - lo,
{
    if hi <= lo {
        None
    } else if s[hi - 1].kind is Ident {
        Some(hi - 1)
    } else {
        last_ident(s, lo, hi - 1)
    }
}

/// A member of a structure, the non-empty run `lo..hi` of the tokens
/// between its braces: its name, the last identifier before the first
/// `:`, and its type, the tokens after it a space apart.
pub open spec fn member_spec(s: Seq<Token>, lo: int, hi: int) -> Result<(Seq<char>, Seq<char>), Seq<char>> {
    match first_punct(s, lo, hi, ':') {
        None => Err(E_GATHER_FIELDS@),
        Some(c) => match last_ident(s, lo, c) {
            None => Err(E_GATHER_FIELDS@),
            Some(n) => Ok((s[n].text@, spaced(s, c + 1, hi))),
        },
    }
}

/// The members written in the first `k` parts between the braces, the
/// empty parts skipped, up to the first which is refused.
pub open spec fn members_upto(s: Seq<Token>, k: nat) -> Result<Seq<(Seq<char>, Seq<char>)>, Seq<char>>
    decreases k,
{
    if k == 0 {
        Ok(Seq::empty())
    } else {
        match members_upto(s, (k - 1) as nat) {
            Ok(ms) => {
                let p = comma_parts(s)[k - 1];
                if p.0 == p.1 {
                    Ok(ms)
                } else {
                    match member_spec(s, p.0, p.1) {
                        Ok(m) => Ok(ms.push(m)),
                        Err(e) => Err(e),
                    }
                }
            },
            Err(e) => Err(e),
        }
    }
}

/// The members of a structure, from the tokens between its braces.
pub open spec fn members_spec(s: Seq<Token>) -> Result<Seq<(Seq<char>, Seq<char>)>, Seq<char>> {
    members_upto(s, comma_parts(s).len())
}

pub proof fn lemma_members_stop(s: Seq<Token>, k: nat)
    requires
        k <= comma_parts(s).len(),
        members_upto(s, k) is Err,
    ensures
        members_spec(s) == members_upto(s, k),
    decreases comma_parts(s).len() - k,
{
    if k < comma_parts(s).len() {
        lemma_members_stop(s, k + 1);
    }
}

pub open spec fn members_result(r: Result<Vec<(String, String)>, String>) -> Result<
    Seq<(Seq<char>, Seq<char>)>,
    Seq<char>,
> {
    match r {
        Ok(ms) => Ok(pair_views(ms@)),
        Err(e) => Err(e@),
    }
}

/// Where the last identifier stands among the tokens `lo..hi`.
pub fn find_last_ident(s: &[Token], lo: usize, hi: usize) -> (r: Option<usize>)
    requires
        lo <= hi <= s@.len(),
    ensures
        r matches Some(n) ==> last_ident(s@, lo as int, hi as int) == Some(n as int),
        r is None ==> last_ident(s@, lo as int, hi as int) is None,
{
    let mut i: usize = hi;
    while i > lo
        invariant
            lo <= i <= hi <= s@.len(),
            last_ident(s@, lo as int, hi as int) == last_ident(s@, lo as int, i as int),
        decreases i,
    {
        let named = match s[i - 1].kind {
            TokenKind::Ident => true,
            _ => false,
        };
        if named {
            return Some(i - 1);
        }
        i -= 1;
    }
    None
}

/// Read the members of a structure from the tokens between its braces:
/// each a name and its type as written.
pub fn parse_fields(s: &[Token]) -> (r: Result<Vec<(String, String)>, String>)
    ensures
        members_result(r) == members_spec(s@),
{
    let parts = split_on_comma(s);
    proof {
        lemma_comma_parts(s@);
    }
    let mut members: Vec<(String, String)> = Vec::new();
    let mut k: usize = 0;
    assert(pair_views(members@) =~= Seq::<(Seq<char>, Seq<char>)>::empty());
    while k < parts.len()
        invariant
            crate::tokens::runs_view(parts@) == comma_parts(s@),
            k <= parts@.len(),
            forall|j: int|
                0 <= j < comma_parts(s@).len() ==> 0 <= #[trigger] comma_parts(s@)[j].0
                    <= comma_parts(s@)[j].1 <= s@.len(),
            members_upto(s@, k as nat) == Ok::<Seq<(Seq<char>, Seq<char>)>, Seq<char>>(
                pair_views(members@),
            ),
        decreases parts@.len() - k,
    {
        let p = parts[k];
        assert(crate::tokens::runs_view(parts@)[k as int] == run_view(parts@[k as int]));
        assert(run_view(p) == comma_parts(s@)[k as int]);
        assert(0 <= comma_parts(s@)[k as int].0);
        if p.start < p.end {
            proof {
                lemma_first_punct(s@, p.start as int, p.end as int, ':');
            }
            let c = match find_punct(s, p.start, p.end, ':') {
                Some(c) => c,
                None => {
                    proof {
                        lemma_members_stop(s@, (k + 1) as nat);
                    }
                    return Err(String::from_str(E_GATHER_FIELDS));
                },
            };
            let n = match find_last_ident(s, p.start, c) {
                Some(n) => n,
                None => {
                    proof {
                        lemma_members_stop(s@, (k + 1) as nat);
                    }
                    return Err(String::from_str(E_GATHER_FIELDS));
                },
            };
            proof {
                lemma_last_ident(s@, p.start as int, c as int);
            }
            let name = s[n].text.clone();
            let type_ = spaced_text(s, c + 1, p.end);
            let ghost before = pair_views(members@);
            let ghost m = (name@, type_@);
            members.push((name, type_));
            assert(pair_views(members@) =~= before.push(m));
        }
        k += 1;
    }
    Ok(members)
}

/// What `last_ident` finds stands within the run.
pub proof fn lemma_last_ident(s: Seq<Token>, lo: int, hi: int)
    ensures
        last_ident(s, lo, hi) matches Some(n) ==> lo <= n < hi,
    decreases hi - lo,
{
    if hi > lo {
        lemma_last_ident(s, lo, hi - 1);
    }
}

/// The name of the structure and its members, read from the tokens
/// from `i` on, `name` being the name read so far: the name follows
/// `struct`, and the members are in the first brace group.
pub open spec fn gather_from(s: Seq<Token>, i: int, name: Option<Seq<char>>) -> Result<
    (Option<Seq<char>>, Option<Seq<(Seq<char>, Seq<char>)>>),
    Seq<char>,
>
    decreases s.len() - i,
{
    if i >= s.len() || i < 0 {
        Ok((name, None))
    } else if is_ident(s[i], KEY_STRUCT@) {
        if i + 1 < s.len() && s[i + 1].kind is Ident {
            gather_from(s, i + 2, Some(s[i + 1].text@))
        } else {
            Err(E_GATHER_NAME@)
        }
    } else if is_group_in(s[i], Delim::Brace) {
        match members_spec(group_tokens(s[i])) {
            Err(e) => Err(e),
            Ok(ms) => Ok((name, Some(ms))),
        }
    } else {
        gather_from(s, i + 1, name)
    }
}

/// The structure `#[derive(SideGather)]` is put on: its name and its
/// members, or why it cannot be read.
pub open spec fn gather_input_spec(s: Seq<Token>) -> Result<(Seq<char>, Seq<(Seq<char>, Seq<char>)>), Seq<char>> {
    match gather_from(s, 0, None) {
        Err(e) => Err(e),
        Ok((None, _)) => Err(E_GATHER_STRUCT@),
        Ok((Some(_), None)) => Err(E_GATHER_BRACES@),
        Ok((Some(n), Some(ms))) => Ok((n, ms)),
    }
}

/// What `#[derive(SideGather)]` writes for the structure it is put on,
/// or why it cannot describe it.
pub fn derive_side_gather_impl(input: &[Token]) -> (r: Result<String, String>)
    ensures
        text_result(r) == match gather_input_spec(input@) {
            Err(e) => Err(e),
            Ok((n, ms)) => gather_spec(n, ms),
        },
{
    let ghost s = input@;
    let mut struct_name: Option<String> = None;
    let mut i: usize = 0;
    while i < input.len()
        invariant
            s == input@,
            i <= s.len(),
            gather_from(s, 0, None) == gather_from(
                s,
                i as int,
                match struct_name {
                    Some(n) => Some(n@),
                    None => None,
                },
            ),
        decreases s.len() - i,
    {
        let t = &input[i];
        let is_struct = match t.kind {
            TokenKind::Ident => text_eq(t.text.as_str(), KEY_STRUCT),
            _ => false,
        };
        if is_struct {
            let named = i + 1 < input.len() && match input[i + 1].kind {
                TokenKind::Ident => true,
                _ => false,
            };
            if !named {
                return Err(String::from_str(E_GATHER_NAME));
            }
            struct_name = Some(input[i + 1].text.clone());
            i += 2;
        } else {
            if let TokenKind::Group(d, inner) = &t.kind {
                if *d == Delim::Brace {
                    /* The members are in the first brace group. */
                    let members = match parse_fields(inner.as_slice()) {
                        Ok(ms) => ms,
                        Err(e) => {
                            return Err(e);
                        },
                    };
                    return match struct_name {
                        Some(n) => gather_text(n.as_str(), members.as_slice()),
                        None => Err(String::from_str(E_GATHER_STRUCT)),
                    };
                }
            }
            i += 1;
        }
    }
    match struct_name {
        Some(_) => Err(String::from_str(E_GATHER_BRACES)),
        None => Err(String::from_str(E_GATHER_STRUCT)),
    }
}

/* What `#[libside::events]` is put on. */

/// Where the module an attribute is put on stands among its tokens: the
/// tokens before `mod`, its name, and the group of its body.
pub struct ModuleAt {
    pub prefix: usize,
    pub name: String,
    pub body: usize,
}

pub open spec fn module_result(r: Result<ModuleAt, String>) -> Result<(int, Seq<char>, int), Seq<char>> {
    match r {
        Ok(m) => Ok((m.prefix as int, m.name@, m.body as int)),
        Err(e) => Err(e@),
    }
}

/// The first `mod` from `i` on, the name after it, and the group after
/// that.
pub open spec fn module_from(s: Seq<Token>, i: int) -> Result<(int, Seq<char>, int), Seq<char>>
    decreases s.len() - i,
{
    if i >= s.len() || i < 0 {
        Err(E_MODULE@)
    } else if is_ident(s[i], KEY_MOD@) {
        if !(i + 1 < s.len() && s[i + 1].kind is Ident) {
            Err(E_MODULE_NAME@)
        } else if !(i + 2 < s.len() && s[i + 2].kind is Group) {
            Err(E_MODULE_BODY@)
        } else {
            Ok((i, s[i + 1].text@, i + 2))
        }
    } else {
        module_from(s, i + 1)
    }
}

/// Find the module an attribute is put on.
pub fn read_module(item: &[Token]) -> (r: Result<ModuleAt, String>)
    ensures
        module_result(r) == module_from(item@, 0),
{
    let ghost s = item@;
    let mut i: usize = 0;
    while i < item.len()
        invariant
            s == item@,
            i <= s.len(),
            module_from(s, 0) == module_from(s, i as int),
        decreases s.len() - i,
    {
        let is_mod = match item[i].kind {
            TokenKind::Ident => text_eq(item[i].text.as_str(), KEY_MOD),
            _ => false,
        };
        if is_mod {
            let named = i + 1 < item.len() && match item[i + 1].kind {
                TokenKind::Ident => true,
                _ => false,
            };
            if !named {
                return Err(String::from_str(E_MODULE_NAME));
            }
            let bodied = i + 2 < item.len() && match item[i + 2].kind {
                TokenKind::Group(_, _) => true,
                _ => false,
            };
            if !bodied {
                return Err(String::from_str(E_MODULE_BODY));
            }
            return Ok(ModuleAt { prefix: i, name: item[i + 1].text.clone(), body: i + 2 });
        }
        i += 1;
    }
    Err(String::from_str(E_MODULE))
}

/// The body of a module of events: the tokens left as they are, and
/// the events declared, each with the group of its declaration.
pub struct BodyAt {
    pub passthrough: Vec<usize>,
    pub events: Vec<(usize, EventAt)>,
}

pub open spec fn indices_view(v: Seq<usize>) -> Seq<int> {
    Seq::new(v.len(), |i: int| v[i] as int)
}

pub open spec fn events_at_view(v: Seq<(usize, EventAt)>) -> Seq<(int, EventView)> {
    Seq::new(v.len(), |i: int| (v[i].0 as int, event_view(v[i].1)))
}

pub open spec fn body_outcome(r: Reading<BodyAt>) -> Outcome<(Seq<int>, Seq<(int, EventView)>)> {
    match r {
        Reading::Read(b) => Outcome::Read((indices_view(b.passthrough@), events_at_view(b.events@))),
        Reading::Refused(e) => Outcome::Refused(e@),
        Reading::Cut => Outcome::Cut,
    }
}

/// `define_event!` stands at `i`.
pub open spec fn event_at(s: Seq<Token>, i: int) -> bool {
    is_ident(s[i], KEY_DEFINE_EVENT@) && i + 1 < s.len() && is_punct(s[i + 1], '!')
}

/// The body of a module from its token `i` on: each `define_event!`,
/// its declaration in a group and, where one follows, its semicolon,
/// is an event; every other token is left as it is.
pub open spec fn body_from(s: Seq<Token>, i: int) -> Outcome<(Seq<int>, Seq<(int, EventView)>)>
    decreases s.len() - i,
{
    if i >= s.len() || i < 0 {
        Outcome::Read((Seq::empty(), Seq::empty()))
    } else if event_at(s, i) {
        if !(i + 2 < s.len() && s[i + 2].kind is Group) {
            Outcome::Refused(E_DECLARATION@)
        } else {
            match event_spec(group_tokens(s[i + 2])) {
                Outcome::Refused(e) => Outcome::Refused(e),
                Outcome::Cut => Outcome::Cut,
                Outcome::Read(ev) => {
                    let next = if i + 3 < s.len() && is_punct(s[i + 3], ';') {
                        i + 4
                    } else {
                        i + 3
                    };
                    match body_from(s, next) {
                        Outcome::Read((p, es)) => Outcome::Read((p, seq![(i + 2, ev)] + es)),
                        Outcome::Refused(e) => Outcome::Refused(e),
                        Outcome::Cut => Outcome::Cut,
                    }
                },
            }
        }
    } else {
        match body_from(s, i + 1) {
            Outcome::Read((p, es)) => Outcome::Read((seq![i] + p, es)),
            Outcome::Refused(e) => Outcome::Refused(e),
            Outcome::Cut => Outcome::Cut,
        }
    }
}

/// The body of a module of events, which must declare one at least.
pub open spec fn body_spec(s: Seq<Token>) -> Outcome<(Seq<int>, Seq<(int, EventView)>)> {
    match body_from(s, 0) {
        Outcome::Read((p, es)) => if es.len() == 0 {
            Outcome::Refused(E_NO_EVENTS@)
        } else {
            Outcome::Read((p, es))
        },
        Outcome::Refused(e) => Outcome::Refused(e),
        Outcome::Cut => Outcome::Cut,
    }
}

/// What is read of the whole body, given what was read before token
/// `i` and what is read from it on.
pub open spec fn body_joined(
    s: Seq<Token>,
    i: int,
    pass: Seq<int>,
    evs: Seq<(int, EventView)>,
) -> Outcome<(Seq<int>, Seq<(int, EventView)>)> {
    match body_from(s, i) {
        Outcome::Read((p, es)) => Outcome::Read((pass + p, evs + es)),
        Outcome::Refused(e) => Outcome::Refused(e),
        Outcome::Cut => Outcome::Cut,
    }
}

/// Read the body of a module of events.
pub fn read_body(body: &[Token]) -> (r: Reading<BodyAt>)
    ensures
        body_outcome(r) == body_spec(body@),
{
    let ghost s = body@;
    let mut passthrough: Vec<usize> = Vec::new();
    let mut events: Vec<(usize, EventAt)> = Vec::new();
    let mut i: usize = 0;
    proof {
        assert(indices_view(passthrough@) =~= Seq::<int>::empty());
        assert(events_at_view(events@) =~= Seq::<(int, EventView)>::empty());
        match body_from(s, 0) {
            Outcome::Read((p, es)) => {
                assert(Seq::<int>::empty() + p =~= p);
                assert(Seq::<(int, EventView)>::empty() + es =~= es);
            },
            _ => {},
        }
    }
    while i < body.len()
        invariant
            s == body@,
            i <= s.len(),
            body_from(s, 0) == body_joined(
                s,
                i as int,
                indices_view(passthrough@),
                events_at_view(events@),
            ),
        decreases s.len() - i,
    {
        let ghost pass = indices_view(passthrough@);
        let ghost evs = events_at_view(events@);
        let is_name = match body[i].kind {
            TokenKind::Ident => text_eq(body[i].text.as_str(), KEY_DEFINE_EVENT),
            _ => false,
        };
        let bang = i + 1 < body.len() && match body[i + 1].kind {
            TokenKind::Punct(p) => p == '!',
            _ => false,
        };
        if is_name && bang {
            let grouped = i + 2 < body.len() && match body[i + 2].kind {
                TokenKind::Group(_, _) => true,
                _ => false,
            };
            if !grouped {
                return Reading::Refused(String::from_str(E_DECLARATION));
            }
            let read = match &body[i + 2].kind {
                TokenKind::Group(_, inner) => parse_event(inner.as_slice()),
                _ => Reading::Cut,
            };
            match read {
                Reading::Read(ev) => {
                    let semicolon = i + 3 < body.len() && match body[i + 3].kind {
                        TokenKind::Punct(p) => p == ';',
                        _ => false,
                    };
                    let ghost evv = event_view(ev);
                    events.push((i + 2, ev));
                    assert(events_at_view(events@) =~= evs.push((i + 2, evv)));
                    let next = if semicolon {
                        i + 4
                    } else {
                        i + 3
                    };
                    proof {
                        match body_from(s, next as int) {
                            Outcome::Read((p, es)) => {
                                assert(evs + (seq![(i + 2, evv)] + es) =~= evs.push((i + 2, evv))
                                    + es);
                            },
                            _ => {},
                        }
                    }
                    i = next;
                },
                Reading::Refused(e) => {
                    return Reading::Refused(e);
                },
                Reading::Cut => {
                    return Reading::Cut;
                },
            }
        } else {
            passthrough.push(i);
            assert(indices_view(passthrough@) =~= pass.push(i as int));
            proof {
                match body_from(s, i + 1) {
                    Outcome::Read((p, es)) => {
                        assert(pass + (seq![i as int] + p) =~= pass.push(i as int) + p);
                    },
                    _ => {},
                }
            }
            i += 1;
        }
    }
    if events.len() == 0 {
        return Reading::Refused(String::from_str(E_NO_EVENTS));
    }
    proof {
        assert(indices_view(passthrough@) + Seq::<int>::empty() =~= indices_view(passthrough@));
        assert(events_at_view(events@) + Seq::<(int, EventView)>::empty() =~= events_at_view(events@));
    }
    Reading::Read(BodyAt { passthrough, events })
}

/* What `#[libside::events(..)]` is given. */

/// A setting given to the attribute, the non-empty run `lo..hi`: the
/// text of its key and the run of its value, or `None` where it has no
/// `=`.
pub open spec fn setting_spec(s: Seq<Token>, lo: int, hi: int) -> Option<(Seq<char>, (int, int))> {
    match first_punct(s, lo, hi, '=') {
        None => None,
        Some(e) => Some((texts(s, lo, e), (e + 1, hi))),
    }
}

/// The settings written in the first `k` parts, the empty ones skipped.
pub open spec fn settings_upto(s: Seq<Token>, k: nat) -> Seq<Option<(Seq<char>, (int, int))>>
    decreases k,
{
    if k == 0 {
        Seq::empty()
    } else {
        let p = comma_parts(s)[k - 1];
        if p.0 == p.1 {
            settings_upto(s, (k - 1) as nat)
        } else {
            settings_upto(s, (k - 1) as nat).push(setting_spec(s, p.0, p.1))
        }
    }
}

/// The settings given to the attribute, one per non-empty part.
pub open spec fn settings_spec(s: Seq<Token>) -> Seq<Option<(Seq<char>, (int, int))>> {
    settings_upto(s, comma_parts(s).len())
}

pub open spec fn setting_view(o: Option<(String, Run)>) -> Option<(Seq<char>, (int, int))> {
    match o {
        Some((k, r)) => Some((k@, run_view(r))),
        None => None,
    }
}

pub open spec fn settings_view(v: Seq<Option<(String, Run)>>) -> Seq<Option<(Seq<char>, (int, int))>> {
    Seq::new(v.len(), |i: int| setting_view(v[i]))
}

/// Split what the attribute is given into its settings: each the text
/// of its key and the run of its value, or `None` where it has no `=`.
pub fn setting_parts(attr: &[Token]) -> (r: Vec<Option<(String, Run)>>)
    ensures
        settings_view(r@) == settings_spec(attr@),
{
    let parts = split_on_comma(attr);
    proof {
        lemma_comma_parts(attr@);
    }
    let mut settings: Vec<Option<(String, Run)>> = Vec::new();
    let mut k: usize = 0;
    assert(settings_view(settings@) =~= Seq::<Option<(Seq<char>, (int, int))>>::empty());
    while k < parts.len()
        invariant
            crate::tokens::runs_view(parts@) == comma_parts(attr@),
            k <= parts@.len(),
            forall|j: int|
                0 <= j < comma_parts(attr@).len() ==> 0 <= #[trigger] comma_parts(attr@)[j].0
                    <= comma_parts(attr@)[j].1 <= attr@.len(),
            settings_view(settings@) == settings_upto(attr@, k as nat),
        decreases parts@.len() - k,
    {
        let p = parts[k];
        assert(crate::tokens::runs_view(parts@)[k as int] == run_view(parts@[k as int]));
        assert(run_view(p) == comma_parts(attr@)[k as int]);
        assert(0 <= comma_parts(attr@)[k as int].0);
        if p.start < p.end {
            let ghost before = settings_view(settings@);
            proof {
                lemma_first_punct(attr@, p.start as int, p.end as int, '=');
            }
            let setting = match find_punct(attr, p.start, p.end, '=') {
                None => None,
                Some(e) => Some((run_text(attr, p.start, e), Run { start: e + 1, end: p.end })),
            };
            let ghost one = setting_view(setting);
            settings.push(setting);
            assert(settings_view(settings@) =~= before.push(one));
        }
        k += 1;
    }
    settings
}

/// What follows the `:` of a field is its type, and the attributes of
/// its type where a bracket group ends it and is not the whole of it:
/// with two tokens or more and a bracket group last, that group is the
/// attribute list and the kind is read from the tokens before it, so a
/// Rust type never takes the group in; otherwise there is no attribute
/// list and the kind is read from them all. The kind read is a Rust
/// type of exactly those tokens, or `side_extern(..)` at the group right
/// after the first of them.
pub proof fn law_field_attributes_trail(g: Seq<Token>, lo: int, hi: int)
    requires
        0 <= lo <= hi <= g.len(),
    ensures
        ({
            let listed = hi - lo >= 2 && is_group_in(g[hi - 1], Delim::Bracket);
            let end = if listed {
                hi - 1
            } else {
                hi
            };
            &&& field_spec(g, lo, hi) matches Ok((k, a)) ==> {
                &&& a == (if listed {
                    Some(hi - 1)
                } else {
                    None::<int>
                })
                &&& k matches KindView::Rust(s, t) ==> s == lo && t == end
                &&& k matches KindView::Extern(x) ==> x == lo + 1 && end == lo + 2
            }
            &&& field_spec(g, lo, hi) is Err ==> field_spec(g, lo, hi) == Err::<
                (KindView, Option<int>),
                Seq<char>,
            >(E_EXTERN@)
        }),
{
}

} // verus!
