//! The grammar: turns specification text into the ordered definition
//! sequence the symbol table consumes.  Recognized are constant
//! declarations, type aliases, enumerated, aggregate and discriminated
//! type declarations, fixed arrays, bounded and unbounded sequences,
//! optional fields, and the opaque and string byte-sequence markers.  No
//! semantic validation happens here; order is preserved because constant
//! resolution depends on it.
//!
//! Both stages carry full contracts: `tokenize` against a specification
//! of the lexical rules over the character sequence, and the parsing
//! functions against a specification of the grammar over the token
//! sequence.

use vstd::prelude::*;
use vstd::string::StrSliceExecFns;
use vstd::string::StringExecFns;
use crate::ast::{Value, Type, EnumDefn, UnionCase, Decl, Defn};

verus! {

broadcast use vstd::seq::group_seq_axioms, vstd::std_specs::vec::group_vec_axioms;

/// A parse failure: how many tokens were still unread when it was
/// noticed.
#[derive(Debug, PartialEq, Eq, Clone, Copy)]
pub struct ParseError {
    /// Count of tokens remaining at the point of failure.
    pub at: usize,
}

/// One lexical token.
#[derive(Debug, PartialEq, Eq)]
pub enum Tok {
    Ident(String),
    Num(i64),
    LBrace,
    RBrace,
    LBracket,
    RBracket,
    LAngle,
    RAngle,
    LParen,
    RParen,
    Semi,
    Colon,
    Comma,
    Assign,
    Star,
}

/// The shape of a token, with identifier text as a character sequence.
pub enum TokV {
    Ident(Seq<char>),
    Num(i64),
    LBrace,
    RBrace,
    LBracket,
    RBracket,
    LAngle,
    RAngle,
    LParen,
    RParen,
    Semi,
    Colon,
    Comma,
    Assign,
    Star,
}

/// The view of a token.
pub open spec fn tok_view(t: Tok) -> TokV {
    match t {
        Tok::Ident(s) => TokV::Ident(s@),
        Tok::Num(v) => TokV::Num(v),
        Tok::LBrace => TokV::LBrace,
        Tok::RBrace => TokV::RBrace,
        Tok::LBracket => TokV::LBracket,
        Tok::RBracket => TokV::RBracket,
        Tok::LAngle => TokV::LAngle,
        Tok::RAngle => TokV::RAngle,
        Tok::LParen => TokV::LParen,
        Tok::RParen => TokV::RParen,
        Tok::Semi => TokV::Semi,
        Tok::Colon => TokV::Colon,
        Tok::Comma => TokV::Comma,
        Tok::Assign => TokV::Assign,
        Tok::Star => TokV::Star,
    }
}

/// The views of a token sequence.
pub open spec fn toks_view(ts: Seq<Tok>) -> Seq<TokV> {
    Seq::new(ts.len(), |i: int| tok_view(ts[i]))
}

/// Whitespace.
pub open spec fn sp_is_space(c: char) -> bool {
    c == ' ' || c == '\t' || c == '\n' || c == '\r'
}

/// A decimal digit.
pub open spec fn sp_is_digit(c: char) -> bool {
    ('0' as u32) <= (c as u32) && (c as u32) <= ('9' as u32)
}

/// A character that may open an identifier.
pub open spec fn sp_is_ident_start(c: char) -> bool {
    (('a' as u32) <= (c as u32) && (c as u32) <= ('z' as u32)) || (('A' as u32) <= (c as u32) && (
    c as u32) <= ('Z' as u32)) || c == '_'
}

/// A character that may continue an identifier.
pub open spec fn sp_is_ident_char(c: char) -> bool {
    sp_is_ident_start(c) || sp_is_digit(c)
}

fn is_space(c: char) -> (r: bool)
    ensures
        r == sp_is_space(c),
{
    c == ' ' || c == '\t' || c == '\n' || c == '\r'
}

fn is_digit(c: char) -> (r: bool)
    ensures
        r == sp_is_digit(c),
{
    ('0' as u32) <= (c as u32) && (c as u32) <= ('9' as u32)
}

fn is_ident_start(c: char) -> (r: bool)
    ensures
        r == sp_is_ident_start(c),
{
    let u = c as u32;
    (('a' as u32) <= u && u <= ('z' as u32)) || (('A' as u32) <= u && u <= ('Z' as u32)) || c == '_'
}

fn is_ident_char(c: char) -> (r: bool)
    ensures
        r == sp_is_ident_char(c),
{
    is_ident_start(c) || is_digit(c)
}

/// A scan result clamped to lie past `i` and within the text: scans
/// always land there, and the clamp makes that plain.
pub open spec fn clamp_pos(e: int, i: int, n: int) -> int {
    if e < i + 1 {
        i + 1
    } else if e > n {
        n
    } else {
        e
    }
}

/// The position just past the closing of a block comment opened before
/// `j`, if it closes.
pub open spec fn sp_skip_block(s: Seq<char>, j: int) -> Option<int>
    decreases s.len() - j,
{
    if j < 0 || j >= s.len() {
        None
    } else if s[j] == '*' && j + 1 < s.len() && s[j + 1] == '/' {
        Some(j + 2)
    } else {
        sp_skip_block(s, j + 1)
    }
}

/// The position of the next line break at or after `j`, or the end.
pub open spec fn sp_line_end(s: Seq<char>, j: int) -> int
    decreases s.len() - j,
{
    if j < 0 || j >= s.len() || s[j] == '\n' {
        j
    } else {
        sp_line_end(s, j + 1)
    }
}

/// The position of the first non-identifier character at or after `j`.
pub open spec fn sp_ident_end(s: Seq<char>, j: int) -> int
    decreases s.len() - j,
{
    if j < 0 || j >= s.len() || !sp_is_ident_char(s[j]) {
        j
    } else {
        sp_ident_end(s, j + 1)
    }
}

/// Scans a digit run, accumulating its magnitude; fails if the magnitude
/// would pass `limit`.  Yields the magnitude and the end position.
pub open spec fn sp_num_scan(s: Seq<char>, j: int, mag: int, limit: int) -> Option<(int, int)>
    decreases s.len() - j,
{
    if j < 0 || j >= s.len() || !sp_is_digit(s[j]) {
        Some((mag, j))
    } else {
        let d = (s[j] as u32) - ('0' as u32);
        if mag > (limit - d) / 10 {
            None
        } else {
            sp_num_scan(s, j + 1, mag * 10 + d, limit)
        }
    }
}

/// Prepends a token to a tokenization, if it succeeded.
pub open spec fn sp_cons(t: TokV, rest: Option<Seq<TokV>>) -> Option<Seq<TokV>> {
    match rest {
        None => None,
        Some(r) => Some(seq![t] + r),
    }
}

/// The lexical rules: what token list a character sequence denotes from
/// position `i` on, or nothing if the text is not lexable (a stray
/// character, an unterminated comment, a bare minus, or an integer
/// literal outside the 64-bit range).
pub open spec fn sp_tokenize(s: Seq<char>, i: int) -> Option<Seq<TokV>>
    decreases s.len() - i,
{
    if i < 0 || i >= s.len() {
        Some(Seq::empty())
    } else {
        let c = s[i];
        if sp_is_space(c) {
            sp_tokenize(s, i + 1)
        } else if c == '/' {
            if i + 1 < s.len() && s[i + 1] == '*' {
                match sp_skip_block(s, i + 2) {
                    None => None,
                    Some(e) => sp_tokenize(s, clamp_pos(e, i, s.len() as int)),
                }
            } else if i + 1 < s.len() && s[i + 1] == '/' {
                sp_tokenize(s, clamp_pos(sp_line_end(s, i + 2), i, s.len() as int))
            } else {
                None
            }
        } else if c == '{' {
            sp_cons(TokV::LBrace, sp_tokenize(s, i + 1))
        } else if c == '}' {
            sp_cons(TokV::RBrace, sp_tokenize(s, i + 1))
        } else if c == '[' {
            sp_cons(TokV::LBracket, sp_tokenize(s, i + 1))
        } else if c == ']' {
            sp_cons(TokV::RBracket, sp_tokenize(s, i + 1))
        } else if c == '<' {
            sp_cons(TokV::LAngle, sp_tokenize(s, i + 1))
        } else if c == '>' {
            sp_cons(TokV::RAngle, sp_tokenize(s, i + 1))
        } else if c == '(' {
            sp_cons(TokV::LParen, sp_tokenize(s, i + 1))
        } else if c == ')' {
            sp_cons(TokV::RParen, sp_tokenize(s, i + 1))
        } else if c == ';' {
            sp_cons(TokV::Semi, sp_tokenize(s, i + 1))
        } else if c == ':' {
            sp_cons(TokV::Colon, sp_tokenize(s, i + 1))
        } else if c == ',' {
            sp_cons(TokV::Comma, sp_tokenize(s, i + 1))
        } else if c == '=' {
            sp_cons(TokV::Assign, sp_tokenize(s, i + 1))
        } else if c == '*' {
            sp_cons(TokV::Star, sp_tokenize(s, i + 1))
        } else if sp_is_ident_start(c) {
            let e = clamp_pos(sp_ident_end(s, i + 1), i, s.len() as int);
            sp_cons(TokV::Ident(s.subrange(i, e)), sp_tokenize(s, e))
        } else if sp_is_digit(c) || c == '-' {
            let neg = c == '-';
            let j0 = if neg {
                i + 1
            } else {
                i
            };
            if neg && (j0 >= s.len() || !sp_is_digit(s[j0])) {
                None
            } else {
                let limit: int = if neg {
                    0x8000_0000_0000_0000
                } else {
                    0x7fff_ffff_ffff_ffff
                };
                match sp_num_scan(s, j0, 0, limit) {
                    None => None,
                    Some((mag, e)) => sp_cons(
                        TokV::Num(
                            (if neg {
                                -mag
                            } else {
                                mag
                            }) as i64,
                        ),
                        sp_tokenize(s, clamp_pos(e, i, s.len() as int)),
                    ),
                }
            }
        } else {
            None
        }
    }
}

/// Splits specification text into tokens, skipping whitespace and
/// comments, exactly as the lexical rules say.
pub fn tokenize(src: &str) -> (r: Result<Vec<Tok>, ParseError>)
    ensures
        match r {
            Ok(toks) => sp_tokenize(src@, 0) == Some(toks_view(toks@)),
            Err(_) => sp_tokenize(src@, 0) is None,
        },
{
    let ghost s = src@;
    let n: usize = src.unicode_len();
    let mut toks: Vec<Tok> = Vec::new();
    let mut i: usize = 0;
    while i < n
        invariant
            i <= n,
            n == s.len(),
            s == src@,
            sp_tokenize(s, 0) == (match sp_tokenize(s, i as int) {
                None => None::<Seq<TokV>>,
                Some(rest) => Some(toks_view(toks@) + rest),
            }),
        decreases n - i,
    {
        let ghost views0 = toks_view(toks@);
        let c: char = src.get_char(i);
        if is_space(c) {
            i = i + 1;
        } else if c == '/' {
            if i + 1 < n && src.get_char(i + 1) == '*' {
                let mut j: usize = i + 2;
                let mut closed: bool = false;
                while j < n && !closed
                    invariant
                        i + 2 <= j + 1,
                        j <= n,
                        n == s.len(),
                        s == src@,
                        closed ==> j < n && sp_skip_block(s, i + 2) == Some(j + 1 as int),
                        !closed ==> sp_skip_block(s, i + 2) == sp_skip_block(s, j as int),
                    decreases n - j,
                {
                    if src.get_char(j) == '*' && j + 1 < n && src.get_char(j + 1) == '/' {
                        closed = true;
                    }
                    j = j + 1;
                }
                if !closed {
                    assert(sp_skip_block(s, i + 2) is None);
                    return Err(ParseError { at: toks.len() });
                }
                i = j + 1;
            } else if i + 1 < n && src.get_char(i + 1) == '/' {
                let mut j: usize = i + 2;
                while j < n && src.get_char(j) != '\n'
                    invariant
                        i + 2 <= j,
                        j <= n,
                        n == s.len(),
                        s == src@,
                        sp_line_end(s, i + 2) == sp_line_end(s, j as int),
                    decreases n - j,
                {
                    j = j + 1;
                }
                assert(sp_line_end(s, j as int) == j);
                i = j;
            } else {
                return Err(ParseError { at: toks.len() });
            }
        } else if c == '{' {
            toks.push(Tok::LBrace);
            i = i + 1;
        } else if c == '}' {
            toks.push(Tok::RBrace);
            i = i + 1;
        } else if c == '[' {
            toks.push(Tok::LBracket);
            i = i + 1;
        } else if c == ']' {
            toks.push(Tok::RBracket);
            i = i + 1;
        } else if c == '<' {
            toks.push(Tok::LAngle);
            i = i + 1;
        } else if c == '>' {
            toks.push(Tok::RAngle);
            i = i + 1;
        } else if c == '(' {
            toks.push(Tok::LParen);
            i = i + 1;
        } else if c == ')' {
            toks.push(Tok::RParen);
            i = i + 1;
        } else if c == ';' {
            toks.push(Tok::Semi);
            i = i + 1;
        } else if c == ':' {
            toks.push(Tok::Colon);
            i = i + 1;
        } else if c == ',' {
            toks.push(Tok::Comma);
            i = i + 1;
        } else if c == '=' {
            toks.push(Tok::Assign);
            i = i + 1;
        } else if c == '*' {
            toks.push(Tok::Star);
            i = i + 1;
        } else if is_ident_start(c) {
            let start: usize = i;
            let mut j: usize = i + 1;
            while j < n && is_ident_char(src.get_char(j))
                invariant
                    start < j <= n,
                    n == s.len(),
                    s == src@,
                    sp_ident_end(s, start + 1) == sp_ident_end(s, j as int),
                decreases n - j,
            {
                j = j + 1;
            }
            assert(sp_ident_end(s, j as int) == j);
            let piece: &str = src.substring_char(start, j);
            toks.push(Tok::Ident(String::from_str(piece)));
            i = j;
        } else if is_digit(c) || c == '-' {
            let negative: bool = c == '-';
            let mut j: usize = if negative {
                i + 1
            } else {
                i
            };
            if negative && (j >= n || !is_digit(src.get_char(j))) {
                return Err(ParseError { at: toks.len() });
            }
            let limit: u64 = if negative {
                9_223_372_036_854_775_808u64
            } else {
                9_223_372_036_854_775_807u64
            };
            let ghost j0 = j as int;
            let mut mag: u64 = 0;
            let mut overflow: bool = false;
            while j < n && !overflow && is_digit(src.get_char(j))
                invariant
                    j0 <= j <= n,
                    n == s.len(),
                    s == src@,
                    limit == 9_223_372_036_854_775_807u64 || limit
                        == 9_223_372_036_854_775_808u64,
                    mag <= limit,
                    !overflow ==> sp_num_scan(s, j0, 0, limit as int) == sp_num_scan(
                        s,
                        j as int,
                        mag as int,
                        limit as int,
                    ),
                    overflow ==> sp_num_scan(s, j0, 0, limit as int) is None,
                decreases n - j, 1int - (if overflow { 1int } else { 0int }),
            {
                let cj: char = src.get_char(j);
                let d: u64 = (((cj as u32) - ('0' as u32)) as u64);
                assert(d <= 9);
                if mag > (limit - d) / 10 {
                    overflow = true;
                } else {
                    assert(mag * 10 + d <= limit) by (nonlinear_arith)
                        requires
                            mag <= (limit - d) / 10,
                            d <= limit,
                    ;
                    mag = mag * 10 + d;
                    j = j + 1;
                }
            }
            if overflow {
                return Err(ParseError { at: toks.len() });
            }
            assert(sp_num_scan(s, j as int, mag as int, limit as int) == Some(
                (mag as int, j as int),
            ));
            let val: i64 = if negative {
                if mag == 9_223_372_036_854_775_808u64 {
                    i64::MIN
                } else {
                    -(mag as i64)
                }
            } else {
                mag as i64
            };
            assert(val as int == (if negative {
                -(mag as int)
            } else {
                mag as int
            }));
            toks.push(Tok::Num(val));
            assert(j > i);
            i = j;
        } else {
            return Err(ParseError { at: toks.len() });
        }
        proof {
            let rest_i = sp_tokenize(s, i as int);
            assert(toks_view(toks@) =~= views0 + toks_view(toks@).skip(views0.len() as int));
            if toks_view(toks@).len() > views0.len() {
                let tv = toks_view(toks@)[views0.len() as int];
                assert(toks_view(toks@) =~= views0 + seq![tv]);
                if rest_i is Some {
                    assert((views0 + seq![tv]) + rest_i->Some_0 =~= views0 + (seq![tv]
                        + rest_i->Some_0));
                }
            }
        }
    }
    assert(sp_tokenize(s, n as int) == Some(Seq::<TokV>::empty()));
    assert(toks_view(toks@) + Seq::<TokV>::empty() =~= toks_view(toks@));
    Ok(toks)
}


/// The kind of a punctuation token.
#[derive(Debug, PartialEq, Eq, Clone, Copy)]
pub enum TokKind {
    KLBrace,
    KRBrace,
    KLBracket,
    KRBracket,
    KLAngle,
    KRAngle,
    KLParen,
    KRParen,
    KSemi,
    KColon,
    KComma,
    KAssign,
    KStar,
}

/// Whether a token is the given punctuation.
pub open spec fn sp_is_kind(t: Tok, k: TokKind) -> bool {
    match (t, k) {
        (Tok::LBrace, TokKind::KLBrace) => true,
        (Tok::RBrace, TokKind::KRBrace) => true,
        (Tok::LBracket, TokKind::KLBracket) => true,
        (Tok::RBracket, TokKind::KRBracket) => true,
        (Tok::LAngle, TokKind::KLAngle) => true,
        (Tok::RAngle, TokKind::KRAngle) => true,
        (Tok::LParen, TokKind::KLParen) => true,
        (Tok::RParen, TokKind::KRParen) => true,
        (Tok::Semi, TokKind::KSemi) => true,
        (Tok::Colon, TokKind::KColon) => true,
        (Tok::Comma, TokKind::KComma) => true,
        (Tok::Assign, TokKind::KAssign) => true,
        (Tok::Star, TokKind::KStar) => true,
        _ => false,
    }
}

/// Whether the token at `i` is the identifier spelled `w`.
pub open spec fn kw_at(t: Seq<Tok>, i: int, w: Seq<char>) -> bool {
    0 <= i < t.len() && match t[i] {
        Tok::Ident(s) => s@ == w,
        _ => false,
    }
}

/// The shape of a parsed type, with element lists as sequences.
pub enum TypeS {
    UInt,
    Int,
    UHyper,
    Hyper,
    Float,
    Double,
    Quadruple,
    Bool,
    Opaque,
    String,
    Enum(Seq<EnumDefn>),
    Struct(Seq<DeclS>),
    Union(Box<DeclS>, Seq<(Value, DeclS)>, Option<Box<DeclS>>),
    Option(Box<TypeS>),
    Array(Box<TypeS>, Value),
    Flex(Box<TypeS>, Option<Value>),
    Ident(String),
}

/// The shape of a parsed declaration.
pub enum DeclS {
    Void,
    Named(String, TypeS),
}

/// The shape of a parsed definition.
pub enum DefnS {
    Typedef(String, TypeS),
    Const(String, i64),
}

/// The shapes of a declaration list, from position `i` on.
pub open spec fn decl_shapes(s: Seq<Decl>, i: int) -> Seq<DeclS>
    decreases s, s.len() - i, 1int,
{
    if i < 0 || i >= s.len() {
        Seq::empty()
    } else {
        seq![decl_shape(s[i])] + decl_shapes(s, i + 1)
    }
}

/// The shapes of a case list, from position `i` on.
pub open spec fn case_shapes(s: Seq<UnionCase>, i: int) -> Seq<(Value, DeclS)>
    decreases s, s.len() - i, 1int,
{
    if i < 0 || i >= s.len() {
        Seq::empty()
    } else {
        seq![(s[i].0, decl_shape(s[i].1))] + case_shapes(s, i + 1)
    }
}

/// The shape of a type.
pub open spec fn ty_shape(t: Type) -> TypeS
    decreases t, 0int, 0int,
{
    match t {
        Type::UInt => TypeS::UInt,
        Type::Int => TypeS::Int,
        Type::UHyper => TypeS::UHyper,
        Type::Hyper => TypeS::Hyper,
        Type::Float => TypeS::Float,
        Type::Double => TypeS::Double,
        Type::Quadruple => TypeS::Quadruple,
        Type::Bool => TypeS::Bool,
        Type::Opaque => TypeS::Opaque,
        Type::String => TypeS::String,
        Type::Enum(ms) => TypeS::Enum(ms@),
        Type::Struct(ds) => TypeS::Struct(decl_shapes(ds@, 0)),
        Type::Union(sel, cs, dfl) => TypeS::Union(
            Box::new(decl_shape(*sel)),
            case_shapes(cs@, 0),
            match dfl {
                Some(b) => Some(Box::new(decl_shape(*b))),
                None => None,
            },
        ),
        Type::Option(b) => TypeS::Option(Box::new(ty_shape(*b))),
        Type::Array(b, v) => TypeS::Array(Box::new(ty_shape(*b)), v),
        Type::Flex(b, v) => TypeS::Flex(Box::new(ty_shape(*b)), v),
        Type::Ident(s) => TypeS::Ident(s),
    }
}

/// The shape of a declaration.
pub open spec fn decl_shape(d: Decl) -> DeclS
    decreases d, 0int, 0int,
{
    match d {
        Decl::Void => DeclS::Void,
        Decl::Named(name, ty) => DeclS::Named(name, ty_shape(ty)),
    }
}

/// The shape of an optional declaration.
pub open spec fn opt_decl_shape(d: Option<Decl>) -> Option<DeclS> {
    match d {
        Some(x) => Some(decl_shape(x)),
        None => None,
    }
}

/// The shape of a definition.
pub open spec fn defn_shape(d: Defn) -> DefnS {
    match d {
        Defn::Typedef(name, ty) => DefnS::Typedef(name, ty_shape(ty)),
        Defn::Const(name, v) => DefnS::Const(name, v),
    }
}

/// The shapes of a definition list, from position `i` on.
pub open spec fn defn_shapes(s: Seq<Defn>, i: int) -> Seq<DefnS>
    decreases s.len() - i,
{
    if i < 0 || i >= s.len() {
        Seq::empty()
    } else {
        seq![defn_shape(s[i])] + defn_shapes(s, i + 1)
    }
}

/// Each position of a shape sequence is the shape at that position.
pub proof fn lemma_decl_shapes_index(s: Seq<Decl>, i: int)
    requires
        0 <= i <= s.len(),
    ensures
        decl_shapes(s, i).len() == s.len() - i,
        forall|k: int| i <= k < s.len() ==> decl_shapes(s, i)[k - i] == decl_shape(#[trigger] s[k]),
    decreases s.len() - i,
{
    if i < s.len() {
        lemma_decl_shapes_index(s, i + 1);
    }
}

/// Each position of a case-shape sequence is the shape at that position.
pub proof fn lemma_case_shapes_index(s: Seq<UnionCase>, i: int)
    requires
        0 <= i <= s.len(),
    ensures
        case_shapes(s, i).len() == s.len() - i,
        forall|k: int|
            i <= k < s.len() ==> case_shapes(s, i)[k - i] == ((#[trigger] s[k]).0, decl_shape(
                s[k].1,
            )),
    decreases s.len() - i,
{
    if i < s.len() {
        lemma_case_shapes_index(s, i + 1);
    }
}

/// Each position of a definition-shape sequence is the shape at that
/// position.
pub proof fn lemma_defn_shapes_index(s: Seq<Defn>, i: int)
    requires
        0 <= i <= s.len(),
    ensures
        defn_shapes(s, i).len() == s.len() - i,
        forall|k: int| i <= k < s.len() ==> defn_shapes(s, i)[k - i] == defn_shape(#[trigger] s[k]),
    decreases s.len() - i,
{
    if i < s.len() {
        lemma_defn_shapes_index(s, i + 1);
    }
}

/// The punctuation rule: the expected token opens the rest.
pub open spec fn sp_kind(t: Seq<Tok>, k: TokKind) -> Option<Seq<Tok>> {
    if t.len() > 0 && sp_is_kind(t[0], k) {
        Some(t.drop_first())
    } else {
        None
    }
}

/// The identifier rule.
pub open spec fn sp_ident_tok(t: Seq<Tok>) -> Option<(String, Seq<Tok>)> {
    if t.len() > 0 && t[0] is Ident {
        Some((t[0]->Ident_0, t.drop_first()))
    } else {
        None
    }
}

/// The value rule: a literal or a constant name.
pub open spec fn sp_value_tok(t: Seq<Tok>) -> Option<(Value, Seq<Tok>)> {
    if t.len() == 0 {
        None
    } else {
        match t[0] {
            Tok::Num(v) => Some((Value::Const(v), t.drop_first())),
            Tok::Ident(s) => Some((Value::Ident(s), t.drop_first())),
            _ => None,
        }
    }
}

/// The type-expression rule: a scalar keyword, a byte-sequence marker, an
/// inline enumerated, aggregate or discriminated body, or a type name.
pub open spec fn sp_type_spec(t: Seq<Tok>) -> Option<(TypeS, Seq<Tok>)>
    decreases t.len(), 0int, 0int,
{
    if t.len() == 0 {
        None
    } else {
        match t[0] {
            Tok::Ident(s) => {
                if s@ == "unsigned"@ {
                    if kw_at(t, 1, "int"@) {
                        Some((TypeS::UInt, t.skip(2)))
                    } else if kw_at(t, 1, "hyper"@) {
                        Some((TypeS::UHyper, t.skip(2)))
                    } else {
                        Some((TypeS::UInt, t.drop_first()))
                    }
                } else if s@ == "int"@ {
                    Some((TypeS::Int, t.drop_first()))
                } else if s@ == "hyper"@ {
                    Some((TypeS::Hyper, t.drop_first()))
                } else if s@ == "float"@ {
                    Some((TypeS::Float, t.drop_first()))
                } else if s@ == "double"@ {
                    Some((TypeS::Double, t.drop_first()))
                } else if s@ == "quadruple"@ {
                    Some((TypeS::Quadruple, t.drop_first()))
                } else if s@ == "bool"@ {
                    Some((TypeS::Bool, t.drop_first()))
                } else if s@ == "opaque"@ {
                    Some((TypeS::Opaque, t.drop_first()))
                } else if s@ == "string"@ {
                    Some((TypeS::String, t.drop_first()))
                } else if s@ == "enum"@ {
                    match sp_enum_body(t.drop_first()) {
                        None => None,
                        Some((ms, r)) => Some((TypeS::Enum(ms), r)),
                    }
                } else if s@ == "struct"@ {
                    match sp_struct_body(t.drop_first()) {
                        None => None,
                        Some((ds, r)) => Some((TypeS::Struct(ds), r)),
                    }
                } else if s@ == "union"@ {
                    match sp_union_body(t.drop_first()) {
                        None => None,
                        Some(((sel, cs, dd), r)) => Some(
                            (
                                TypeS::Union(
                                    Box::new(sel),
                                    cs,
                                    match dd {
                                        Some(x) => Some(Box::new(x)),
                                        None => None,
                                    },
                                ),
                                r,
                            ),
                        ),
                    }
                } else {
                    Some((TypeS::Ident(s), t.drop_first()))
                }
            },
            _ => None,
        }
    }
}

/// The declaration rule: void, or a type expression and a field name with
/// an optional pointer, array or sequence qualifier.
pub open spec fn sp_declaration(t: Seq<Tok>) -> Option<(DeclS, Seq<Tok>)>
    decreases t.len(), 1int, 0int,
{
    if kw_at(t, 0, "void"@) {
        Some((DeclS::Void, t.drop_first()))
    } else {
        match sp_type_spec(t) {
            None => None,
            Some((tys, r1)) => if r1.len() > 0 && sp_is_kind(r1[0], TokKind::KStar) {
                match sp_ident_tok(r1.drop_first()) {
                    None => None,
                    Some((name, r2)) => Some(
                        (DeclS::Named(name, TypeS::Option(Box::new(tys))), r2),
                    ),
                }
            } else {
                match sp_ident_tok(r1) {
                    None => None,
                    Some((name, r2)) => if r2.len() > 0 && sp_is_kind(r2[0], TokKind::KLBracket) {
                        match sp_value_tok(r2.drop_first()) {
                            None => None,
                            Some((sz, r3)) => match sp_kind(r3, TokKind::KRBracket) {
                                None => None,
                                Some(r4) => Some(
                                    (DeclS::Named(name, TypeS::Array(Box::new(tys), sz)), r4),
                                ),
                            },
                        }
                    } else if r2.len() > 0 && sp_is_kind(r2[0], TokKind::KLAngle) {
                        if r2.drop_first().len() > 0 && sp_is_kind(
                            r2.drop_first()[0],
                            TokKind::KRAngle,
                        ) {
                            Some(
                                (
                                    DeclS::Named(name, TypeS::Flex(Box::new(tys), None)),
                                    r2.drop_first().drop_first(),
                                ),
                            )
                        } else {
                            match sp_value_tok(r2.drop_first()) {
                                None => None,
                                Some((sz, r3)) => match sp_kind(r3, TokKind::KRAngle) {
                                    None => None,
                                    Some(r4) => Some(
                                        (
                                            DeclS::Named(
                                                name,
                                                TypeS::Flex(Box::new(tys), Some(sz)),
                                            ),
                                            r4,
                                        ),
                                    ),
                                },
                            }
                        }
                    } else {
                        Some((DeclS::Named(name, tys), r2))
                    },
                }
            },
        }
    }
}

/// The rest of an enumerated body after one member: a comma continues the
/// member list, a closing brace ends it.
pub open spec fn sp_members_after(t0: Seq<Tok>, m: EnumDefn, r: Seq<Tok>) -> Option<
    (Seq<EnumDefn>, Seq<Tok>),
>
    decreases t0.len(), 2int, 0int,
{
    if r.len() > 0 && sp_is_kind(r[0], TokKind::KComma) {
        if r.drop_first().len() < t0.len() {
            match sp_enum_members(r.drop_first()) {
                None => None,
                Some((ms, rr)) => Some((seq![m] + ms, rr)),
            }
        } else {
            None
        }
    } else {
        match sp_kind(r, TokKind::KRBrace) {
            None => None,
            Some(rr) => Some((seq![m], rr)),
        }
    }
}

/// The member-list rule: a member name with an optional explicit value,
/// then the rest of the body.
pub open spec fn sp_enum_members(t: Seq<Tok>) -> Option<(Seq<EnumDefn>, Seq<Tok>)>
    decreases t.len(), 2int, 1int,
{
    match sp_ident_tok(t) {
        None => None,
        Some((name, r1)) => if r1.len() > 0 && sp_is_kind(r1[0], TokKind::KAssign) {
            match sp_value_tok(r1.drop_first()) {
                None => None,
                Some((v, r2)) => sp_members_after(t, EnumDefn(name, Some(v)), r2),
            }
        } else {
            sp_members_after(t, EnumDefn(name, None), r1)
        },
    }
}

/// The enumerated-body rule: the member list between braces.
pub open spec fn sp_enum_body(t: Seq<Tok>) -> Option<(Seq<EnumDefn>, Seq<Tok>)>
    decreases t.len(), 3int, 0int,
{
    match sp_kind(t, TokKind::KLBrace) {
        None => None,
        Some(r) => if r.len() <= t.len() {
            sp_enum_members(r)
        } else {
            None
        },
    }
}

/// The field-list rule: semicolon-terminated declarations until the
/// closing brace.
pub open spec fn sp_struct_decls(t: Seq<Tok>) -> Option<(Seq<DeclS>, Seq<Tok>)>
    decreases t.len(), 2int, 0int,
{
    if t.len() > 0 && sp_is_kind(t[0], TokKind::KRBrace) {
        Some((Seq::empty(), t.drop_first()))
    } else {
        match sp_declaration(t) {
            None => None,
            Some((d, r1)) => match sp_kind(r1, TokKind::KSemi) {
                None => None,
                Some(r2) => if r2.len() < t.len() {
                    match sp_struct_decls(r2) {
                        None => None,
                        Some((ds, rr)) => Some((seq![d] + ds, rr)),
                    }
                } else {
                    None
                },
            },
        }
    }
}

/// The aggregate-body rule: the field list between braces.
pub open spec fn sp_struct_body(t: Seq<Tok>) -> Option<(Seq<DeclS>, Seq<Tok>)>
    decreases t.len(), 3int, 0int,
{
    match sp_kind(t, TokKind::KLBrace) {
        None => None,
        Some(r) => if r.len() <= t.len() {
            sp_struct_decls(r)
        } else {
            None
        },
    }
}

/// The arm-list rule: case and default arms until the closing brace; a
/// later default arm replaces an earlier one.
pub open spec fn sp_union_items(t: Seq<Tok>) -> Option<
    ((Seq<(Value, DeclS)>, Option<DeclS>), Seq<Tok>),
>
    decreases t.len(), 2int, 0int,
{
    if t.len() > 0 && sp_is_kind(t[0], TokKind::KRBrace) {
        Some(((Seq::empty(), Option::<DeclS>::None), t.drop_first()))
    } else if kw_at(t, 0, "case"@) {
        match sp_value_tok(t.drop_first()) {
            None => None,
            Some((lab, r1)) => match sp_kind(r1, TokKind::KColon) {
                None => None,
                Some(r2) => if r2.len() < t.len() {
                    match sp_declaration(r2) {
                        None => None,
                        Some((d, r3)) => match sp_kind(r3, TokKind::KSemi) {
                            None => None,
                            Some(r4) => if r4.len() < t.len() {
                                match sp_union_items(r4) {
                                    None => None,
                                    Some(((cs, dd), rr)) => Some(
                                        ((seq![(lab, d)] + cs, dd), rr),
                                    ),
                                }
                            } else {
                                None
                            },
                        },
                    }
                } else {
                    None
                },
            },
        }
    } else if kw_at(t, 0, "default"@) {
        match sp_kind(t.drop_first(), TokKind::KColon) {
            None => None,
            Some(r1) => if r1.len() < t.len() {
                match sp_declaration(r1) {
                    None => None,
                    Some((d, r2)) => match sp_kind(r2, TokKind::KSemi) {
                        None => None,
                        Some(r3) => if r3.len() < t.len() {
                            match sp_union_items(r3) {
                                None => None,
                                Some(((cs, dd), rr)) => Some(
                                    (
                                        (
                                            cs,
                                            if dd is Some {
                                                dd
                                            } else {
                                                Some(d)
                                            },
                                        ),
                                        rr,
                                    ),
                                ),
                            }
                        } else {
                            None
                        },
                    },
                }
            } else {
                None
            },
        }
    } else {
        None
    }
}

/// The discriminated-body rule: the switch selector, then the arm list
/// between braces.
pub open spec fn sp_union_body(t: Seq<Tok>) -> Option<
    ((DeclS, Seq<(Value, DeclS)>, Option<DeclS>), Seq<Tok>),
>
    decreases t.len(), 3int, 0int,
{
    if !kw_at(t, 0, "switch"@) {
        None
    } else {
        match sp_kind(t.drop_first(), TokKind::KLParen) {
            None => None,
            Some(r1) => if r1.len() < t.len() {
                match sp_declaration(r1) {
                    None => None,
                    Some((sel, r2)) => match sp_kind(r2, TokKind::KRParen) {
                        None => None,
                        Some(r3) => match sp_kind(r3, TokKind::KLBrace) {
                            None => None,
                            Some(r4) => if r4.len() < t.len() {
                                match sp_union_items(r4) {
                                    None => None,
                                    Some(((cs, dd), rr)) => Some(((sel, cs, dd), rr)),
                                }
                            } else {
                                None
                            },
                        },
                    },
                }
            } else {
                None
            },
        }
    }
}

/// The definition rule: a constant, an alias, or an enumerated, aggregate
/// or discriminated type declaration.
pub open spec fn sp_defn(t: Seq<Tok>) -> Option<(DefnS, Seq<Tok>)>
    decreases t.len(), 4int, 0int,
{
    if kw_at(t, 0, "const"@) {
        match sp_ident_tok(t.drop_first()) {
            None => None,
            Some((name, r1)) => match sp_kind(r1, TokKind::KAssign) {
                None => None,
                Some(r2) => if r2.len() > 0 && r2[0] is Num {
                    match sp_kind(r2.drop_first(), TokKind::KSemi) {
                        None => None,
                        Some(r3) => Some((DefnS::Const(name, r2[0]->Num_0), r3)),
                    }
                } else {
                    None
                },
            },
        }
    } else if kw_at(t, 0, "typedef"@) {
        match sp_declaration(t.drop_first()) {
            None => None,
            Some((d, r1)) => match sp_kind(r1, TokKind::KSemi) {
                None => None,
                Some(r2) => match d {
                    DeclS::Named(name, tys) => Some((DefnS::Typedef(name, tys), r2)),
                    DeclS::Void => None,
                },
            },
        }
    } else if kw_at(t, 0, "enum"@) {
        match sp_ident_tok(t.drop_first()) {
            None => None,
            Some((name, r1)) => if r1.len() <= t.len() {
                match sp_enum_body(r1) {
                    None => None,
                    Some((ms, r2)) => match sp_kind(r2, TokKind::KSemi) {
                        None => None,
                        Some(r3) => Some((DefnS::Typedef(name, TypeS::Enum(ms)), r3)),
                    },
                }
            } else {
                None
            },
        }
    } else if kw_at(t, 0, "struct"@) {
        match sp_ident_tok(t.drop_first()) {
            None => None,
            Some((name, r1)) => if r1.len() <= t.len() {
                match sp_struct_body(r1) {
                    None => None,
                    Some((ds, r2)) => match sp_kind(r2, TokKind::KSemi) {
                        None => None,
                        Some(r3) => Some((DefnS::Typedef(name, TypeS::Struct(ds)), r3)),
                    },
                }
            } else {
                None
            },
        }
    } else if kw_at(t, 0, "union"@) {
        match sp_ident_tok(t.drop_first()) {
            None => None,
            Some((name, r1)) => if r1.len() <= t.len() {
                match sp_union_body(r1) {
                    None => None,
                    Some(((sel, cs, dd), r2)) => match sp_kind(r2, TokKind::KSemi) {
                        None => None,
                        Some(r3) => Some(
                            (
                                DefnS::Typedef(
                                    name,
                                    TypeS::Union(
                                        Box::new(sel),
                                        cs,
                                        match dd {
                                            Some(x) => Some(Box::new(x)),
                                            None => None,
                                        },
                                    ),
                                ),
                                r3,
                            ),
                        ),
                    },
                }
            } else {
                None
            },
        }
    } else {
        None
    }
}

/// The specification rule: definitions until the tokens run out.
pub open spec fn sp_defns(t: Seq<Tok>) -> Option<Seq<DefnS>>
    decreases t.len(), 5int, 0int,
{
    if t.len() == 0 {
        Some(Seq::empty())
    } else {
        match sp_defn(t) {
            None => None,
            Some((d, r)) => if r.len() < t.len() {
                match sp_defns(r) {
                    None => None,
                    Some(ds) => Some(seq![d] + ds),
                }
            } else {
                None
            },
        }
    }
}


/// Whether the next token is the given punctuation.
fn peek_kind(toks: &Vec<Tok>, k: TokKind) -> (r: bool)
    ensures
        r == (toks@.len() > 0 && sp_is_kind(toks@[0], k)),
{
    if toks.len() > 0 {
        match (&toks[0], k) {
            (Tok::LBrace, TokKind::KLBrace) => true,
            (Tok::RBrace, TokKind::KRBrace) => true,
            (Tok::LBracket, TokKind::KLBracket) => true,
            (Tok::RBracket, TokKind::KRBracket) => true,
            (Tok::LAngle, TokKind::KLAngle) => true,
            (Tok::RAngle, TokKind::KRAngle) => true,
            (Tok::LParen, TokKind::KLParen) => true,
            (Tok::RParen, TokKind::KRParen) => true,
            (Tok::Semi, TokKind::KSemi) => true,
            (Tok::Colon, TokKind::KColon) => true,
            (Tok::Comma, TokKind::KComma) => true,
            (Tok::Assign, TokKind::KAssign) => true,
            (Tok::Star, TokKind::KStar) => true,
            _ => false,
        }
    } else {
        false
    }
}

/// Whether an identifier token holds exactly the given word.
fn is_word(s: &String, w: &str) -> (r: bool)
    ensures
        r == (s@ == w@),
{
    *s == String::from_str(w)
}

/// Whether the token at `i` is the identifier spelled `w`.
fn peek_kw(toks: &Vec<Tok>, i: usize, w: &str) -> (r: bool)
    ensures
        r == kw_at(toks@, i as int, w@),
{
    if i < toks.len() {
        if let Tok::Ident(s) = &toks[i] {
            return is_word(s, w);
        }
    }
    false
}

/// Consumes the expected punctuation.
fn expect_kind(toks: &mut Vec<Tok>, k: TokKind) -> (r: Result<(), ParseError>)
    ensures
        match r {
            Ok(_) => sp_kind(old(toks)@, k) == Some(final(toks)@) && final(toks)@.len() < old(toks)@.len(),
            Err(_) => sp_kind(old(toks)@, k) is None,
        },
{
    if peek_kind(toks, k) {
        let _ = toks.remove(0);
        assert(toks@ =~= old(toks)@.drop_first());
        Ok(())
    } else {
        Err(ParseError { at: toks.len() })
    }
}

/// Consumes an identifier token.
fn expect_ident(toks: &mut Vec<Tok>) -> (r: Result<String, ParseError>)
    ensures
        match r {
            Ok(name) => sp_ident_tok(old(toks)@) == Some((name, final(toks)@)) && final(toks)@.len() < old(toks)@.len(),
            Err(_) => sp_ident_tok(old(toks)@) is None,
        },
{
    if toks.len() > 0 {
        if matches!(&toks[0], Tok::Ident(_)) {
            let tk = toks.remove(0);
            assert(toks@ =~= old(toks)@.drop_first());
            if let Tok::Ident(s) = tk {
                return Ok(s);
            }
        }
    }
    Err(ParseError { at: toks.len() })
}

/// Consumes a value: a literal or a constant name.
fn parse_value(toks: &mut Vec<Tok>) -> (r: Result<Value, ParseError>)
    ensures
        match r {
            Ok(v) => sp_value_tok(old(toks)@) == Some((v, final(toks)@)) && final(toks)@.len()
                < old(toks)@.len(),
            Err(_) => sp_value_tok(old(toks)@) is None,
        },
{
    if toks.len() > 0 {
        if matches!(&toks[0], Tok::Ident(_) | Tok::Num(_)) {
            let tk = toks.remove(0);
            assert(toks@ =~= old(toks)@.drop_first());
            match tk {
                Tok::Ident(s) => {
                    return Ok(Value::Ident(s));
                },
                Tok::Num(v) => {
                    return Ok(Value::Const(v));
                },
                _ => (),
            }
        }
    }
    Err(ParseError { at: toks.len() })
}

/// Consumes a type expression.
fn parse_type_spec(toks: &mut Vec<Tok>) -> (r: Result<Type, ParseError>)
    ensures
        match r {
            Ok(ty) => sp_type_spec(old(toks)@) == Some((ty_shape(ty), final(toks)@)) && final(toks)@.len() < old(toks)@.len(),
            Err(_) => sp_type_spec(old(toks)@) is None,
        },
    decreases toks@.len(), 0int,
{
    if toks.len() == 0 {
        return Err(ParseError { at: 0 });
    }
    if !matches!(&toks[0], Tok::Ident(_)) {
        return Err(ParseError { at: toks.len() });
    }
    if peek_kw(toks, 0, "unsigned") {
        let _ = toks.remove(0);
        assert(toks@ =~= old(toks)@.drop_first());
        if peek_kw(toks, 0, "int") {
            let _ = toks.remove(0);
            assert(toks@ =~= old(toks)@.skip(2));
            Ok(Type::UInt)
        } else if peek_kw(toks, 0, "hyper") {
            let _ = toks.remove(0);
            assert(toks@ =~= old(toks)@.skip(2));
            Ok(Type::UHyper)
        } else {
            Ok(Type::UInt)
        }
    } else if peek_kw(toks, 0, "int") {
        let _ = toks.remove(0);
        assert(toks@ =~= old(toks)@.drop_first());
        Ok(Type::Int)
    } else if peek_kw(toks, 0, "hyper") {
        let _ = toks.remove(0);
        assert(toks@ =~= old(toks)@.drop_first());
        Ok(Type::Hyper)
    } else if peek_kw(toks, 0, "float") {
        let _ = toks.remove(0);
        assert(toks@ =~= old(toks)@.drop_first());
        Ok(Type::Float)
    } else if peek_kw(toks, 0, "double") {
        let _ = toks.remove(0);
        assert(toks@ =~= old(toks)@.drop_first());
        Ok(Type::Double)
    } else if peek_kw(toks, 0, "quadruple") {
        let _ = toks.remove(0);
        assert(toks@ =~= old(toks)@.drop_first());
        Ok(Type::Quadruple)
    } else if peek_kw(toks, 0, "bool") {
        let _ = toks.remove(0);
        assert(toks@ =~= old(toks)@.drop_first());
        Ok(Type::Bool)
    } else if peek_kw(toks, 0, "opaque") {
        let _ = toks.remove(0);
        assert(toks@ =~= old(toks)@.drop_first());
        Ok(Type::Opaque)
    } else if peek_kw(toks, 0, "string") {
        let _ = toks.remove(0);
        assert(toks@ =~= old(toks)@.drop_first());
        Ok(Type::String)
    } else if peek_kw(toks, 0, "enum") {
        let _ = toks.remove(0);
        assert(toks@ =~= old(toks)@.drop_first());
        match parse_enum_body(toks) {
            Err(e) => Err(e),
            Ok(ms) => Ok(Type::Enum(ms)),
        }
    } else if peek_kw(toks, 0, "struct") {
        let _ = toks.remove(0);
        assert(toks@ =~= old(toks)@.drop_first());
        match parse_struct_body(toks) {
            Err(e) => Err(e),
            Ok(ds) => Ok(Type::Struct(ds)),
        }
    } else if peek_kw(toks, 0, "union") {
        let _ = toks.remove(0);
        assert(toks@ =~= old(toks)@.drop_first());
        match parse_union_body(toks) {
            Err(e) => Err(e),
            Ok(parts) => Ok(Type::union(parts)),
        }
    } else {
        let tk = toks.remove(0);
        assert(toks@ =~= old(toks)@.drop_first());
        match tk {
            Tok::Ident(s) => Ok(Type::Ident(s)),
            _ => Err(ParseError { at: toks.len() }),
        }
    }
}

/// Consumes a declaration.
fn parse_declaration(toks: &mut Vec<Tok>) -> (r: Result<Decl, ParseError>)
    ensures
        match r {
            Ok(d) => sp_declaration(old(toks)@) == Some((decl_shape(d), final(toks)@)) && final(toks)@.len() < old(toks)@.len(),
            Err(_) => sp_declaration(old(toks)@) is None,
        },
    decreases toks@.len(), 1int,
{
    if peek_kw(toks, 0, "void") {
        let _ = toks.remove(0);
        assert(toks@ =~= old(toks)@.drop_first());
        return Ok(Decl::Void);
    }
    let ty = match parse_type_spec(toks) {
        Err(e) => {
            return Err(e);
        },
        Ok(t) => t,
    };
    if peek_kind(toks, TokKind::KStar) {
        let ghost r1 = toks@;
        let _ = toks.remove(0);
        assert(toks@ =~= r1.drop_first());
        let name = match expect_ident(toks) {
            Err(e) => {
                return Err(e);
            },
            Ok(n) => n,
        };
        return Ok(Decl::Named(name, Type::option(ty)));
    }
    let name = match expect_ident(toks) {
        Err(e) => {
            return Err(e);
        },
        Ok(n) => n,
    };
    if peek_kind(toks, TokKind::KLBracket) {
        let ghost r2 = toks@;
        let _ = toks.remove(0);
        assert(toks@ =~= r2.drop_first());
        let sz = match parse_value(toks) {
            Err(e) => {
                return Err(e);
            },
            Ok(v) => v,
        };
        match expect_kind(toks, TokKind::KRBracket) {
            Err(e) => {
                return Err(e);
            },
            Ok(_) => (),
        }
        return Ok(Decl::Named(name, Type::array(ty, sz)));
    }
    if peek_kind(toks, TokKind::KLAngle) {
        let ghost r2 = toks@;
        let _ = toks.remove(0);
        assert(toks@ =~= r2.drop_first());
        if peek_kind(toks, TokKind::KRAngle) {
            let ghost r3 = toks@;
            let _ = toks.remove(0);
            assert(toks@ =~= r3.drop_first());
            return Ok(Decl::Named(name, Type::flex(ty, None)));
        }
        let sz = match parse_value(toks) {
            Err(e) => {
                return Err(e);
            },
            Ok(v) => v,
        };
        match expect_kind(toks, TokKind::KRAngle) {
            Err(e) => {
                return Err(e);
            },
            Ok(_) => (),
        }
        return Ok(Decl::Named(name, Type::flex(ty, Some(sz))));
    }
    Ok(Decl::Named(name, ty))
}

/// Consumes an enumerated body's member list, after the opening brace.
fn parse_enum_members(toks: &mut Vec<Tok>) -> (r: Result<Vec<EnumDefn>, ParseError>)
    ensures
        match r {
            Ok(ms) => sp_enum_members(old(toks)@) == Some((ms@, final(toks)@)) && final(toks)@.len() < old(toks)@.len(),
            Err(_) => sp_enum_members(old(toks)@) is None,
        },
    decreases toks@.len(), 2int,
{
    let name = match expect_ident(toks) {
        Err(e) => {
            return Err(e);
        },
        Ok(n) => n,
    };
    let mval: Option<Value> = if peek_kind(toks, TokKind::KAssign) {
        let ghost r1 = toks@;
        let _ = toks.remove(0);
        assert(toks@ =~= r1.drop_first());
        match parse_value(toks) {
            Err(e) => {
                return Err(e);
            },
            Ok(v) => Some(v),
        }
    } else {
        None
    };
    let m = EnumDefn(name, mval);
    if peek_kind(toks, TokKind::KComma) {
        let ghost r2 = toks@;
        let _ = toks.remove(0);
        assert(toks@ =~= r2.drop_first());
        let mut rest = match parse_enum_members(toks) {
            Err(e) => {
                return Err(e);
            },
            Ok(v) => v,
        };
        let ghost mg = m;
        let ghost restseq = rest@;
        rest.insert(0, m);
        assert(rest@ =~= seq![mg] + restseq);
        Ok(rest)
    } else {
        match expect_kind(toks, TokKind::KRBrace) {
            Err(e) => {
                return Err(e);
            },
            Ok(_) => (),
        }
        let ghost mg = m;
        let mut v: Vec<EnumDefn> = Vec::new();
        v.push(m);
        assert(v@ =~= seq![mg]);
        Ok(v)
    }
}

/// Consumes an enumerated body.
fn parse_enum_body(toks: &mut Vec<Tok>) -> (r: Result<Vec<EnumDefn>, ParseError>)
    ensures
        match r {
            Ok(ms) => sp_enum_body(old(toks)@) == Some((ms@, final(toks)@)) && final(toks)@.len()
                < old(toks)@.len(),
            Err(_) => sp_enum_body(old(toks)@) is None,
        },
    decreases toks@.len(), 3int,
{
    match expect_kind(toks, TokKind::KLBrace) {
        Err(e) => {
            return Err(e);
        },
        Ok(_) => (),
    }
    parse_enum_members(toks)
}

/// Consumes an aggregate body's field list, after the opening brace.
fn parse_struct_decls(toks: &mut Vec<Tok>) -> (r: Result<Vec<Decl>, ParseError>)
    ensures
        match r {
            Ok(ds) => sp_struct_decls(old(toks)@) == Some((decl_shapes(ds@, 0), final(toks)@))
                && final(toks)@.len() < old(toks)@.len(),
            Err(_) => sp_struct_decls(old(toks)@) is None,
        },
    decreases toks@.len(), 2int,
{
    if peek_kind(toks, TokKind::KRBrace) {
        let _ = toks.remove(0);
        assert(toks@ =~= old(toks)@.drop_first());
        let r: Vec<Decl> = Vec::new();
        proof {
            assert(decl_shapes(r@, 0) =~= Seq::<DeclS>::empty());
        }
        return Ok(r);
    }
    let d = match parse_declaration(toks) {
        Err(e) => {
            return Err(e);
        },
        Ok(d) => d,
    };
    match expect_kind(toks, TokKind::KSemi) {
        Err(e) => {
            return Err(e);
        },
        Ok(_) => (),
    }
    let mut rest = match parse_struct_decls(toks) {
        Err(e) => {
            return Err(e);
        },
        Ok(v) => v,
    };
    let ghost dg = d;
    let ghost restseq = rest@;
    rest.insert(0, d);
    proof {
        assert(rest@ =~= seq![dg] + restseq);
        lemma_decl_shapes_index(rest@, 0);
        lemma_decl_shapes_index(restseq, 0);
        assert forall|k: int| 0 <= k < restseq.len() implies decl_shapes(rest@, 0)[k + 1]
            == decl_shapes(restseq, 0)[k] by {
            assert(decl_shapes(rest@, 0)[k + 1] == decl_shape(rest@[k + 1]));
            assert(rest@[k + 1] == restseq[k]);
        }
        assert(decl_shapes(rest@, 0)[0] == decl_shape(rest@[0]));
        assert(decl_shapes(rest@, 0) =~= seq![decl_shape(dg)] + decl_shapes(restseq, 0));
    }
    Ok(rest)
}

/// Consumes an aggregate body.
fn parse_struct_body(toks: &mut Vec<Tok>) -> (r: Result<Vec<Decl>, ParseError>)
    ensures
        match r {
            Ok(ds) => sp_struct_body(old(toks)@) == Some((decl_shapes(ds@, 0), final(toks)@))
                && final(toks)@.len() < old(toks)@.len(),
            Err(_) => sp_struct_body(old(toks)@) is None,
        },
    decreases toks@.len(), 3int,
{
    match expect_kind(toks, TokKind::KLBrace) {
        Err(e) => {
            return Err(e);
        },
        Ok(_) => (),
    }
    parse_struct_decls(toks)
}

/// Consumes a discriminated body's arm list, after the opening brace.
fn parse_union_items(toks: &mut Vec<Tok>) -> (r: Result<
    (Vec<UnionCase>, Option<Decl>),
    ParseError,
>)
    ensures
        match r {
            Ok(p) => sp_union_items(old(toks)@) == Some(
                ((case_shapes(p.0@, 0), opt_decl_shape(p.1)), final(toks)@),
            ) && final(toks)@.len() < old(toks)@.len(),
            Err(_) => sp_union_items(old(toks)@) is None,
        },
    decreases toks@.len(), 2int,
{
    if peek_kind(toks, TokKind::KRBrace) {
        let _ = toks.remove(0);
        assert(toks@ =~= old(toks)@.drop_first());
        let cs: Vec<UnionCase> = Vec::new();
        proof {
            assert(case_shapes(cs@, 0) =~= Seq::<(Value, DeclS)>::empty());
        }
        return Ok((cs, None));
    }
    if peek_kw(toks, 0, "case") {
        let _ = toks.remove(0);
        assert(toks@ =~= old(toks)@.drop_first());
        let lab = match parse_value(toks) {
            Err(e) => {
                return Err(e);
            },
            Ok(v) => v,
        };
        match expect_kind(toks, TokKind::KColon) {
            Err(e) => {
                return Err(e);
            },
            Ok(_) => (),
        }
        let d = match parse_declaration(toks) {
            Err(e) => {
                return Err(e);
            },
            Ok(d) => d,
        };
        match expect_kind(toks, TokKind::KSemi) {
            Err(e) => {
                return Err(e);
            },
            Ok(_) => (),
        }
        let (mut cs, dd) = match parse_union_items(toks) {
            Err(e) => {
                return Err(e);
            },
            Ok(p) => p,
        };
        let ghost labg = lab;
        let ghost dg = d;
        let ghost csseq = cs@;
        cs.insert(0, UnionCase(lab, d));
        proof {
            assert(cs@ =~= seq![UnionCase(labg, dg)] + csseq);
            lemma_case_shapes_index(cs@, 0);
            lemma_case_shapes_index(csseq, 0);
            assert forall|k: int| 0 <= k < csseq.len() implies case_shapes(cs@, 0)[k + 1]
                == case_shapes(csseq, 0)[k] by {
                assert(case_shapes(cs@, 0)[k + 1] == (cs@[k + 1].0, decl_shape(cs@[k + 1].1)));
                assert(cs@[k + 1] == csseq[k]);
            }
            assert(case_shapes(cs@, 0)[0] == (cs@[0].0, decl_shape(cs@[0].1)));
            assert(case_shapes(cs@, 0) =~= seq![(labg, decl_shape(dg))] + case_shapes(csseq, 0));
        }
        return Ok((cs, dd));
    }
    if peek_kw(toks, 0, "default") {
        let _ = toks.remove(0);
        assert(toks@ =~= old(toks)@.drop_first());
        match expect_kind(toks, TokKind::KColon) {
            Err(e) => {
                return Err(e);
            },
            Ok(_) => (),
        }
        let d = match parse_declaration(toks) {
            Err(e) => {
                return Err(e);
            },
            Ok(d) => d,
        };
        match expect_kind(toks, TokKind::KSemi) {
            Err(e) => {
                return Err(e);
            },
            Ok(_) => (),
        }
        let (cs, dd) = match parse_union_items(toks) {
            Err(e) => {
                return Err(e);
            },
            Ok(p) => p,
        };
        let merged: Option<Decl> = match dd {
            Some(x) => Some(x),
            None => Some(d),
        };
        return Ok((cs, merged));
    }
    Err(ParseError { at: toks.len() })
}

/// Consumes a discriminated body.
fn parse_union_body(toks: &mut Vec<Tok>) -> (r: Result<
    (Decl, Vec<UnionCase>, Option<Decl>),
    ParseError,
>)
    ensures
        match r {
            Ok(p) => sp_union_body(old(toks)@) == Some(
                ((decl_shape(p.0), case_shapes(p.1@, 0), opt_decl_shape(p.2)), final(toks)@),
            ) && final(toks)@.len() < old(toks)@.len(),
            Err(_) => sp_union_body(old(toks)@) is None,
        },
    decreases toks@.len(), 3int,
{
    if !peek_kw(toks, 0, "switch") {
        return Err(ParseError { at: toks.len() });
    }
    let _ = toks.remove(0);
    assert(toks@ =~= old(toks)@.drop_first());
    match expect_kind(toks, TokKind::KLParen) {
        Err(e) => {
            return Err(e);
        },
        Ok(_) => (),
    }
    let sel = match parse_declaration(toks) {
        Err(e) => {
            return Err(e);
        },
        Ok(d) => d,
    };
    match expect_kind(toks, TokKind::KRParen) {
        Err(e) => {
            return Err(e);
        },
        Ok(_) => (),
    }
    match expect_kind(toks, TokKind::KLBrace) {
        Err(e) => {
            return Err(e);
        },
        Ok(_) => (),
    }
    let (cs, dd) = match parse_union_items(toks) {
        Err(e) => {
            return Err(e);
        },
        Ok(p) => p,
    };
    Ok((sel, cs, dd))
}

/// Consumes one top-level definition.
fn parse_defn(toks: &mut Vec<Tok>) -> (r: Result<Defn, ParseError>)
    ensures
        match r {
            Ok(d) => sp_defn(old(toks)@) == Some((defn_shape(d), final(toks)@)) && final(toks)@.len() < old(toks)@.len(),
            Err(_) => sp_defn(old(toks)@) is None,
        },
    decreases toks@.len(), 4int,
{
    if peek_kw(toks, 0, "const") {
        let _ = toks.remove(0);
        assert(toks@ =~= old(toks)@.drop_first());
        let name = match expect_ident(toks) {
            Err(e) => {
                return Err(e);
            },
            Ok(n) => n,
        };
        match expect_kind(toks, TokKind::KAssign) {
            Err(e) => {
                return Err(e);
            },
            Ok(_) => (),
        }
        if toks.len() == 0 || !matches!(&toks[0], Tok::Num(_)) {
            return Err(ParseError { at: toks.len() });
        }
        let ghost r2 = toks@;
        let tk = toks.remove(0);
        assert(toks@ =~= r2.drop_first());
        let v: i64 = match tk {
            Tok::Num(v) => v,
            _ => {
                return Err(ParseError { at: toks.len() });
            },
        };
        match expect_kind(toks, TokKind::KSemi) {
            Err(e) => {
                return Err(e);
            },
            Ok(_) => (),
        }
        Ok(Defn::Const(name, v))
    } else if peek_kw(toks, 0, "typedef") {
        let _ = toks.remove(0);
        assert(toks@ =~= old(toks)@.drop_first());
        let d = match parse_declaration(toks) {
            Err(e) => {
                return Err(e);
            },
            Ok(d) => d,
        };
        match expect_kind(toks, TokKind::KSemi) {
            Err(e) => {
                return Err(e);
            },
            Ok(_) => (),
        }
        match d {
            Decl::Named(name, ty) => Ok(Defn::Typedef(name, ty)),
            Decl::Void => Err(ParseError { at: toks.len() }),
        }
    } else if peek_kw(toks, 0, "enum") {
        let _ = toks.remove(0);
        assert(toks@ =~= old(toks)@.drop_first());
        let name = match expect_ident(toks) {
            Err(e) => {
                return Err(e);
            },
            Ok(n) => n,
        };
        let ms = match parse_enum_body(toks) {
            Err(e) => {
                return Err(e);
            },
            Ok(v) => v,
        };
        match expect_kind(toks, TokKind::KSemi) {
            Err(e) => {
                return Err(e);
            },
            Ok(_) => (),
        }
        Ok(Defn::Typedef(name, Type::Enum(ms)))
    } else if peek_kw(toks, 0, "struct") {
        let _ = toks.remove(0);
        assert(toks@ =~= old(toks)@.drop_first());
        let name = match expect_ident(toks) {
            Err(e) => {
                return Err(e);
            },
            Ok(n) => n,
        };
        let ds = match parse_struct_body(toks) {
            Err(e) => {
                return Err(e);
            },
            Ok(v) => v,
        };
        match expect_kind(toks, TokKind::KSemi) {
            Err(e) => {
                return Err(e);
            },
            Ok(_) => (),
        }
        Ok(Defn::Typedef(name, Type::Struct(ds)))
    } else if peek_kw(toks, 0, "union") {
        let _ = toks.remove(0);
        assert(toks@ =~= old(toks)@.drop_first());
        let name = match expect_ident(toks) {
            Err(e) => {
                return Err(e);
            },
            Ok(n) => n,
        };
        let parts = match parse_union_body(toks) {
            Err(e) => {
                return Err(e);
            },
            Ok(p) => p,
        };
        match expect_kind(toks, TokKind::KSemi) {
            Err(e) => {
                return Err(e);
            },
            Ok(_) => (),
        }
        Ok(Defn::Typedef(name, Type::union(parts)))
    } else {
        Err(ParseError { at: toks.len() })
    }
}

/// Consumes the whole token stream as a definition sequence.
fn parse_defns(toks: &mut Vec<Tok>) -> (r: Result<Vec<Defn>, ParseError>)
    ensures
        match r {
            Ok(ds) => sp_defns(old(toks)@) == Some(defn_shapes(ds@, 0)),
            Err(_) => sp_defns(old(toks)@) is None,
        },
    decreases toks@.len(), 5int,
{
    if toks.len() == 0 {
        let r: Vec<Defn> = Vec::new();
        proof {
            assert(defn_shapes(r@, 0) =~= Seq::<DefnS>::empty());
        }
        return Ok(r);
    }
    let d = match parse_defn(toks) {
        Err(e) => {
            return Err(e);
        },
        Ok(d) => d,
    };
    let mut rest = match parse_defns(toks) {
        Err(e) => {
            return Err(e);
        },
        Ok(v) => v,
    };
    let ghost dg = d;
    let ghost restseq = rest@;
    rest.insert(0, d);
    proof {
        assert(rest@ =~= seq![dg] + restseq);
        lemma_defn_shapes_index(rest@, 0);
        lemma_defn_shapes_index(restseq, 0);
        assert forall|k: int| 0 <= k < restseq.len() implies defn_shapes(rest@, 0)[k + 1]
            == defn_shapes(restseq, 0)[k] by {
            assert(defn_shapes(rest@, 0)[k + 1] == defn_shape(rest@[k + 1]));
            assert(rest@[k + 1] == restseq[k]);
        }
        assert(defn_shapes(rest@, 0)[0] == defn_shape(rest@[0]));
        assert(defn_shapes(rest@, 0) =~= seq![defn_shape(dg)] + defn_shapes(restseq, 0));
    }
    Ok(rest)
}

/// Parses a whole specification into its definition sequence, in source
/// order: the text is tokenized by the lexical rules, and some token
/// sequence bearing exactly those tokens parses by the grammar to the
/// returned definitions' shapes.  The call fails exactly when the text
/// does not lex or that token sequence does not parse.
pub fn specification(src: &str) -> (r: Result<Vec<Defn>, ParseError>)
    ensures
        match r {
            Ok(ds) => sp_tokenize(src@, 0) is Some && exists|ts: Seq<Tok>|
                toks_view(ts) == sp_tokenize(src@, 0)->Some_0 && #[trigger] sp_defns(ts) == Some(
                    defn_shapes(ds@, 0),
                ),
            Err(_) => sp_tokenize(src@, 0) is None || exists|ts: Seq<Tok>|
                toks_view(ts) == sp_tokenize(src@, 0)->Some_0 && #[trigger] sp_defns(ts) is None,
        },
{
    let mut toks = match tokenize(src) {
        Err(e) => {
            return Err(e);
        },
        Ok(t) => t,
    };
    let ghost ts = toks@;
    match parse_defns(&mut toks) {
        Ok(ds) => {
            proof {
                assert(toks_view(ts) == sp_tokenize(src@, 0)->Some_0 && sp_defns(ts) == Some(
                    defn_shapes(ds@, 0),
                ));
            }
            Ok(ds)
        },
        Err(e) => {
            proof {
                assert(toks_view(ts) == sp_tokenize(src@, 0)->Some_0 && sp_defns(ts) is None);
            }
            Err(e)
        },
    }
}

} // verus!