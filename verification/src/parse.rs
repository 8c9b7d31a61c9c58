//! The declaration front-end grammar: turning a token stream into the
//! ordered list of language-variant declarations.
//!
//! The stream holds an optional leading numeric token run, the path of the
//! language type, then `Default = "path";` followed by any number of
//! `Name = "path", Fallback, Fallback;` declarations. A declaration whose
//! name was already declared replaces the earlier one in place, keeping
//! its position.

use vstd::prelude::*;
use crate::registry::{Variant, VariantV, views, has_name, index_of_name};
use crate::template::{is_digit, is_digit_exec, digits_val, lemma_digits_val_mono};

verus! {

/// One input token, as the front-end hands it over: a group stands only
/// for its presence, the others carry their source text.
pub enum Token {
    Group,
    Ident(String),
    Punct(char),
    Literal(String),
}

pub enum TokenV {
    Group,
    Ident(Seq<char>),
    Punct(char),
    Literal(Seq<char>),
}

impl View for Token {
    type V = TokenV;

    open spec fn view(&self) -> TokenV {
        match self {
            Token::Group => TokenV::Group,
            Token::Ident(s) => TokenV::Ident(s@),
            Token::Punct(c) => TokenV::Punct(*c),
            Token::Literal(s) => TokenV::Literal(s@),
        }
    }
}

pub open spec fn tokens_view(ts: Seq<Token>) -> Seq<TokenV> {
    ts.map_values(|t: Token| t@)
}

/// A declaration list that could not be parsed.
#[derive(Debug, PartialEq, Eq)]
pub enum ParseError {
    /// A group token cannot stand in a type path.
    GroupInPath,
    /// No language type name was supplied.
    EmptyLanguageName,
    /// The default variant name must be an identifier.
    ExpectedDefaultName,
    /// The default variant name must not be empty.
    EmptyDefaultName,
    /// `=` must follow a variant name.
    ExpectedEquals,
    /// A resource path literal must follow `=`.
    ExpectedPath,
    /// `;` must follow the default variant's path.
    ExpectedSemicolon,
    /// A declaration must start with an identifier.
    ExpectedVariantName,
    /// `;` or `,` must follow a path or fallback name.
    ExpectedSeparator,
    /// A fallback name must be an identifier.
    ExpectedFallbackName,
}

/// What a parsed stream denotes: the language type path and the ordered
/// declarations, the default first, each with empty properties.
pub struct ParsedV {
    pub language: Seq<char>,
    pub variants: Seq<VariantV>,
}

/// Scanning the language type path from `pos`: punctuation short of `;`
/// and the text of other tokens accumulate; `;` ends the path, as does the
/// end of the stream.
pub open spec fn spec_parse_path(ts: Seq<TokenV>, pos: int, acc: Seq<char>) -> Result<
    (Seq<char>, int),
    ParseError,
>
    decreases ts.len() - pos,
{
    if pos < 0 || pos >= ts.len() {
        Ok((acc, ts.len() as int))
    } else {
        match ts[pos] {
            TokenV::Group => Err(ParseError::GroupInPath),
            TokenV::Punct(c) => if c == ';' {
                Ok((acc, pos + 1))
            } else {
                spec_parse_path(ts, pos + 1, acc.push(c))
            },
            TokenV::Ident(s) => spec_parse_path(ts, pos + 1, acc + s),
            TokenV::Literal(s) => spec_parse_path(ts, pos + 1, acc + s),
        }
    }
}

/// The digit run of a numeric text: what stands behind an optional `+`.
pub open spec fn u128_digits(s: Seq<char>) -> Seq<char> {
    if s.len() > 0 && s[0] == '+' {
        s.subrange(1, s.len() as int)
    } else {
        s
    }
}

/// The text is what `u128` accepts: an optional leading `+`, then at least
/// one ASCII digit, with a value that fits.
pub open spec fn is_u128_literal(s: Seq<char>) -> bool {
    &&& u128_digits(s).len() > 0
    &&& forall|t: int| 0 <= t < u128_digits(s).len() ==> is_digit(u128_digits(s)[t])
    &&& digits_val(u128_digits(s)) <= u128::MAX as int
}

/// An empty variant shell for a declaration: no properties, no segments.
pub open spec fn decl_view(name: Seq<char>, path: Seq<char>, fallbacks: Seq<Seq<char>>) -> VariantV {
    VariantV { name, path, fallbacks, props: Seq::empty(), segs: Seq::empty() }
}

/// Inserting a declaration: a name seen before is replaced in place,
/// keeping its declared position; a new name goes to the end.
pub open spec fn upsert_decl(ds: Seq<VariantV>, d: VariantV) -> Seq<VariantV> {
    if has_name(ds, d.name) {
        ds.update(index_of_name(ds, d.name), d)
    } else {
        ds.push(d)
    }
}

/// Scanning one declaration's fallback list from `pos`: `,` brings one
/// more fallback name, `;` ends the declaration.
pub open spec fn spec_parse_fallbacks(ts: Seq<TokenV>, pos: int, fbs: Seq<Seq<char>>) -> Result<
    (Seq<Seq<char>>, int),
    ParseError,
>
    decreases ts.len() - pos,
{
    if pos < 0 || pos >= ts.len() {
        Err(ParseError::ExpectedSeparator)
    } else {
        match ts[pos] {
            TokenV::Punct(c) => if c == ';' {
                Ok((fbs, pos + 1))
            } else if c != ',' {
                Err(ParseError::ExpectedSeparator)
            } else if pos + 1 >= ts.len() {
                Err(ParseError::ExpectedFallbackName)
            } else {
                match ts[pos + 1] {
                    TokenV::Ident(f) => spec_parse_fallbacks(ts, pos + 2, fbs.push(f)),
                    _ => Err(ParseError::ExpectedFallbackName),
                }
            },
            _ => Err(ParseError::ExpectedSeparator),
        }
    }
}

pub proof fn lemma_parse_fallbacks_advances(ts: Seq<TokenV>, pos: int, fbs: Seq<Seq<char>>)
    ensures
        spec_parse_fallbacks(ts, pos, fbs) matches Ok(r) ==> pos < r.1 <= ts.len(),
    decreases ts.len() - pos,
{
    if 0 <= pos < ts.len() {
        match ts[pos] {
            TokenV::Punct(c) => {
                if c != ';' && c == ',' && pos + 1 < ts.len() {
                    match ts[pos + 1] {
                        TokenV::Ident(f) => {
                            lemma_parse_fallbacks_advances(ts, pos + 2, fbs.push(f));
                        },
                        _ => {},
                    }
                }
            },
            _ => {},
        }
    }
}

/// Scanning declarations from `pos` until the stream ends, upserting each
/// into the accumulated list.
pub open spec fn spec_parse_decls(ts: Seq<TokenV>, pos: int, acc: Seq<VariantV>) -> Result<
    Seq<VariantV>,
    ParseError,
>
    decreases ts.len() - pos,
    via spec_parse_decls_dec
{
    if pos < 0 || pos >= ts.len() {
        Ok(acc)
    } else {
        match ts[pos] {
            TokenV::Ident(name) => {
                if pos + 1 >= ts.len() {
                    Err(ParseError::ExpectedEquals)
                } else {
                    match ts[pos + 1] {
                        TokenV::Punct(c) => if c != '=' {
                            Err(ParseError::ExpectedEquals)
                        } else if pos + 2 >= ts.len() {
                            Err(ParseError::ExpectedPath)
                        } else {
                            match ts[pos + 2] {
                                TokenV::Literal(path) => {
                                    match spec_parse_fallbacks(ts, pos + 3, Seq::empty()) {
                                        Ok(r) => spec_parse_decls(
                                            ts,
                                            r.1,
                                            upsert_decl(acc, decl_view(name, path, r.0)),
                                        ),
                                        Err(e) => Err(e),
                                    }
                                },
                                _ => Err(ParseError::ExpectedPath),
                            }
                        },
                        _ => Err(ParseError::ExpectedEquals),
                    }
                }
            },
            _ => Err(ParseError::ExpectedVariantName),
        }
    }
}

#[via_fn]
proof fn spec_parse_decls_dec(ts: Seq<TokenV>, pos: int, acc: Seq<VariantV>) {
    if 0 <= pos < ts.len() {
        lemma_parse_fallbacks_advances(ts, pos + 3, Seq::empty());
    }
}

pub open spec fn wrap_decls(r: Result<Seq<VariantV>, ParseError>, lang: Seq<char>) -> Result<
    ParsedV,
    ParseError,
> {
    match r {
        Ok(ds) => Ok(ParsedV { language: lang, variants: ds }),
        Err(e) => Err(e),
    }
}

/// What the whole stream denotes: the language path (behind an optional
/// numeric token run), the default declaration, then the others.
pub open spec fn spec_parse(ts: Seq<TokenV>) -> Result<ParsedV, ParseError> {
    match spec_parse_path(ts, 0, Seq::empty()) {
        Err(e) => Err(e),
        Ok(first) => {
            let step = if is_u128_literal(first.0) {
                spec_parse_path(ts, first.1, Seq::empty())
            } else {
                Ok(first)
            };
            match step {
                Err(e) => Err(e),
                Ok(langp) => {
                    let lang = langp.0;
                    let p = langp.1;
                    if lang.len() == 0 {
                        Err(ParseError::EmptyLanguageName)
                    } else if p >= ts.len() || !(ts[p] is Ident) {
                        Err(ParseError::ExpectedDefaultName)
                    } else if p + 1 >= ts.len() || !(ts[p + 1] matches TokenV::Punct(c) && c
                        == '=') {
                        Err(ParseError::ExpectedEquals)
                    } else if (ts[p]->Ident_0).len() == 0 {
                        Err(ParseError::EmptyDefaultName)
                    } else if p + 2 >= ts.len() || !(ts[p + 2] is Literal) {
                        Err(ParseError::ExpectedPath)
                    } else if p + 3 >= ts.len() || !(ts[p + 3] matches TokenV::Punct(c) && c
                        == ';') {
                        Err(ParseError::ExpectedSemicolon)
                    } else {
                        wrap_decls(
                            spec_parse_decls(
                                ts,
                                p + 4,
                                seq![
                                    decl_view(ts[p]->Ident_0, ts[p + 2]->Literal_0, Seq::empty()),
                                ],
                            ),
                            lang,
                        )
                    }
                },
            }
        },
    }
}

/// Collects the language type path from the token stream, consuming up to
/// and including the closing `;`.
pub fn parse_path(tokens: &Vec<Token>, pos: usize) -> (r: Result<(String, usize), ParseError>)
    requires
        pos <= tokens@.len(),
    ensures
        match r {
            Ok(sp) => spec_parse_path(tokens_view(tokens@), pos as int, Seq::empty())
                == Ok::<_, ParseError>((sp.0@, sp.1 as int)) && sp.1 <= tokens@.len(),
            Err(e) => spec_parse_path(tokens_view(tokens@), pos as int, Seq::empty())
                == Err::<(Seq<char>, int), _>(e),
        },
{
    let ghost ts = tokens_view(tokens@);
    let mut acc = String::new();
    let mut p = pos;
    while p < tokens.len()
        invariant
            pos <= p <= tokens@.len(),
            ts == tokens_view(tokens@),
            ts.len() == tokens@.len(),
            spec_parse_path(ts, pos as int, Seq::empty()) == spec_parse_path(ts, p as int, acc@),
        decreases tokens@.len() - p,
    {
        proof {
            assert(ts[p as int] == tokens@[p as int]@);
        }
        match &tokens[p] {
            Token::Group => {
                return Err(ParseError::GroupInPath);
            },
            Token::Punct(c) => {
                if *c == ';' {
                    return Ok((acc, p + 1));
                }
                acc.push(*c);
                p += 1;
            },
            Token::Ident(s) => {
                acc.append(s.as_str());
                p += 1;
            },
            Token::Literal(s) => {
                acc.append(s.as_str());
                p += 1;
            },
        }
    }
    Ok((acc, p))
}

/// Whether the text is a numeric token run that `u128` accepts.
pub fn is_u128_literal_exec(s: &str) -> (r: bool)
    ensures
        r == is_u128_literal(s@),
{
    let n = s.unicode_len();
    let start: usize = if n > 0 && s.get_char(0) == '+' {
        1
    } else {
        0
    };
    let ghost digits = u128_digits(s@);
    proof {
        assert(digits =~= s@.subrange(start as int, n as int));
    }
    if start >= n {
        return false;
    }
    let mut acc: u128 = 0;
    let mut t: usize = start;
    proof {
        assert(s@.subrange(start as int, start as int) =~= Seq::<char>::empty());
    }
    while t < n
        invariant
            start <= t <= n,
            n == s@.len(),
            start == (if s@.len() > 0 && s@[0] == '+' { 1int } else { 0int }),
            digits == u128_digits(s@),
            digits.len() == n - start,
            forall|u: int| start <= u < t ==> is_digit(s@[u]),
            acc == digits_val(s@.subrange(start as int, t as int)),
        decreases n - t,
    {
        let c = s.get_char(t);
        if !is_digit_exec(c) {
            proof {
                assert(u128_digits(s@)[t - start] == s@[t as int]);
                assert(!is_digit(u128_digits(s@)[t - start]));
                assert(!is_u128_literal(s@));
            }
            return false;
        }
        let d = ((c as u32) - 48) as u128;
        proof {
            assert(s@.subrange(start as int, t + 1).drop_last() =~= s@.subrange(
                start as int,
                t as int,
            ));
            assert(digits_val(s@.subrange(start as int, t + 1)) == acc * 10 + d);
        }
        if acc > (u128::MAX - d) / 10 {
            proof {
                assert(acc * 10 + d > u128::MAX) by (nonlinear_arith)
                    requires
                        acc > (u128::MAX - d) / 10,
                        0 <= d <= 9,
                        acc >= 0,
                ;
                if is_u128_literal(s@) {
                    assert forall|u: int| start <= u < n implies is_digit(s@[u]) by {
                        assert(is_digit(u128_digits(s@)[u - start]));
                        assert(u128_digits(s@)[u - start] == s@[u]);
                    };
                    lemma_digits_val_mono(s@, start as int, t + 1, n as int);
                    assert(digits =~= s@.subrange(start as int, n as int));
                    assert(digits_val(digits) > u128::MAX as int);
                    assert(false);
                }
            }
            return false;
        }
        proof {
            assert(acc * 10 + d <= u128::MAX) by (nonlinear_arith)
                requires
                    acc <= (u128::MAX - d) / 10,
                    0 <= d <= 9,
                    acc >= 0,
            ;
        }
        acc = acc * 10 + d;
        t += 1;
    }
    proof {
        assert(digits =~= s@.subrange(start as int, t as int));
        assert(forall|u: int| 0 <= u < digits.len() ==> is_digit(digits[u]));
    }
    true
}


/// Collects one declaration's fallback names, consuming the closing `;`.
pub fn parse_fallbacks(tokens: &Vec<Token>, pos: usize, fbs: Vec<String>) -> (r: Result<
    (Vec<String>, usize),
    ParseError,
>)
    ensures
        match r {
            Ok(fp) => spec_parse_fallbacks(
                tokens_view(tokens@),
                pos as int,
                crate::catalog::names_view(fbs@),
            ) == Ok::<_, ParseError>((crate::catalog::names_view(fp.0@), fp.1 as int)) && pos
                < fp.1 <= tokens@.len(),
            Err(e) => spec_parse_fallbacks(
                tokens_view(tokens@),
                pos as int,
                crate::catalog::names_view(fbs@),
            ) == Err::<(Seq<Seq<char>>, int), _>(e),
        },
    decreases tokens@.len() - pos,
{
    let ghost ts = tokens_view(tokens@);
    if pos >= tokens.len() {
        return Err(ParseError::ExpectedSeparator);
    }
    proof {
        assert(ts[pos as int] == tokens@[pos as int]@);
    }
    match &tokens[pos] {
        Token::Punct(c) => {
            if *c == ';' {
                Ok((fbs, pos + 1))
            } else if *c != ',' {
                Err(ParseError::ExpectedSeparator)
            } else if pos + 1 >= tokens.len() {
                Err(ParseError::ExpectedFallbackName)
            } else {
                proof {
                    assert(ts[pos + 1] == tokens@[pos + 1]@);
                }
                match &tokens[pos + 1] {
                    Token::Ident(f) => {
                        let mut fbs2 = fbs;
                        let ghost f0 = fbs2@;
                        fbs2.push(f.clone());
                        proof {
                            assert(crate::catalog::names_view(fbs2@) =~= crate::catalog::names_view(
                                f0,
                            ).push(f@));
                        }
                        parse_fallbacks(tokens, pos + 2, fbs2)
                    },
                    _ => Err(ParseError::ExpectedFallbackName),
                }
            }
        },
        _ => Err(ParseError::ExpectedSeparator),
    }
}

/// Collects the declarations from `pos` on, upserting each into the list.
pub fn parse_decls(tokens: &Vec<Token>, pos: usize, acc: Vec<Variant>) -> (r: Result<
    Vec<Variant>,
    ParseError,
>)
    ensures
        match r {
            Ok(vs) => spec_parse_decls(tokens_view(tokens@), pos as int, views(acc@))
                == Ok::<_, ParseError>(views(vs@)),
            Err(e) => spec_parse_decls(tokens_view(tokens@), pos as int, views(acc@))
                == Err::<Seq<VariantV>, _>(e),
        },
    decreases tokens@.len() - pos,
{
    let ghost ts = tokens_view(tokens@);
    if pos >= tokens.len() {
        return Ok(acc);
    }
    proof {
        assert(ts[pos as int] == tokens@[pos as int]@);
    }
    let name = match &tokens[pos] {
        Token::Ident(s) => s.clone(),
        _ => {
            return Err(ParseError::ExpectedVariantName);
        },
    };
    if pos + 1 >= tokens.len() {
        return Err(ParseError::ExpectedEquals);
    }
    proof {
        assert(ts[pos + 1] == tokens@[pos + 1]@);
    }
    match &tokens[pos + 1] {
        Token::Punct(c) => {
            if *c != '=' {
                return Err(ParseError::ExpectedEquals);
            }
        },
        _ => {
            return Err(ParseError::ExpectedEquals);
        },
    }
    if pos + 2 >= tokens.len() {
        return Err(ParseError::ExpectedPath);
    }
    proof {
        assert(ts[pos + 2] == tokens@[pos + 2]@);
    }
    let path = match &tokens[pos + 2] {
        Token::Literal(s) => s.clone(),
        _ => {
            return Err(ParseError::ExpectedPath);
        },
    };
    let fp = match parse_fallbacks(tokens, pos + 3, Vec::new()) {
        Ok(fp) => fp,
        Err(e) => {
            proof {
                assert(crate::catalog::names_view(Seq::<String>::empty()) =~= Seq::<
                    Seq<char>,
                >::empty());
            }
            return Err(e);
        },
    };
    proof {
        assert(crate::catalog::names_view(Seq::<String>::empty()) =~= Seq::<Seq<char>>::empty());
    }
    let next = fp.1;
    let decl = Variant {
        name,
        path,
        fallbacks: fp.0,
        properties: Vec::new(),
        segments: Vec::new(),
    };
    let ghost dv = decl@;
    proof {
        assert(dv =~~= decl_view(ts[pos as int]->Ident_0, ts[pos + 2]->Literal_0,
            crate::catalog::names_view(decl.fallbacks@)));
    }
    let mut acc2 = acc;
    let ghost a0 = acc2@;
    match crate::registry::find_variant(&acc2, decl.name.as_str()) {
        Some(ix) => {
            proof {
                crate::registry::lemma_index_of_name(views(a0), dv.name);
            }
            acc2.set(ix, decl);
            proof {
                assert(views(acc2@) =~~= upsert_decl(views(a0), dv));
            }
        },
        None => {
            acc2.push(decl);
            proof {
                assert(views(acc2@) =~~= upsert_decl(views(a0), dv));
            }
        },
    }
    parse_decls(tokens, next, acc2)
}

/// Parses the whole stream: the language type path behind an optional
/// numeric token run, the default declaration, then the others in order.
/// The returned variants carry empty property lists, the default first.
pub fn parse_declarations(tokens: &Vec<Token>) -> (r: Result<(String, Vec<Variant>), ParseError>)
    ensures
        match r {
            Ok(p) => spec_parse(tokens_view(tokens@)) matches Ok(pv) && pv.language == p.0@
                && views(p.1@) == pv.variants,
            Err(e) => spec_parse(tokens_view(tokens@)) == Err::<ParsedV, _>(e),
        },
{
    let ghost ts = tokens_view(tokens@);
    let first = match parse_path(tokens, 0) {
        Ok(f) => f,
        Err(e) => {
            return Err(e);
        },
    };
    let lp = if is_u128_literal_exec(first.0.as_str()) {
        match parse_path(tokens, first.1) {
            Ok(f2) => f2,
            Err(e) => {
                return Err(e);
            },
        }
    } else {
        first
    };
    let language = lp.0;
    let p = lp.1;
    if language.as_str().is_empty() {
        return Err(ParseError::EmptyLanguageName);
    }
    if p >= tokens.len() {
        return Err(ParseError::ExpectedDefaultName);
    }
    proof {
        assert(ts[p as int] == tokens@[p as int]@);
    }
    let dname = match &tokens[p] {
        Token::Ident(s) => s.clone(),
        _ => {
            return Err(ParseError::ExpectedDefaultName);
        },
    };
    if p + 1 >= tokens.len() {
        return Err(ParseError::ExpectedEquals);
    }
    proof {
        assert(ts[p + 1] == tokens@[p + 1]@);
    }
    match &tokens[p + 1] {
        Token::Punct(c) => {
            if *c != '=' {
                return Err(ParseError::ExpectedEquals);
            }
        },
        _ => {
            return Err(ParseError::ExpectedEquals);
        },
    }
    if dname.as_str().is_empty() {
        return Err(ParseError::EmptyDefaultName);
    }
    if p + 2 >= tokens.len() {
        return Err(ParseError::ExpectedPath);
    }
    proof {
        assert(ts[p + 2] == tokens@[p + 2]@);
    }
    let dpath = match &tokens[p + 2] {
        Token::Literal(s) => s.clone(),
        _ => {
            return Err(ParseError::ExpectedPath);
        },
    };
    if p + 3 >= tokens.len() {
        return Err(ParseError::ExpectedSemicolon);
    }
    proof {
        assert(ts[p + 3] == tokens@[p + 3]@);
    }
    match &tokens[p + 3] {
        Token::Punct(c) => {
            if *c != ';' {
                return Err(ParseError::ExpectedSemicolon);
            }
        },
        _ => {
            return Err(ParseError::ExpectedSemicolon);
        },
    }
    let mut vars: Vec<Variant> = Vec::new();
    vars.push(
        Variant {
            name: dname,
            path: dpath,
            fallbacks: Vec::new(),
            properties: Vec::new(),
            segments: Vec::new(),
        },
    );
    proof {
        assert(views(vars@) =~~= seq![
            decl_view(ts[p as int]->Ident_0, ts[p + 2]->Literal_0, Seq::empty()),
        ]);
    }
    match parse_decls(tokens, p + 4, vars) {
        Ok(vs) => Ok((language, vs)),
        Err(e) => Err(e),
    }
}

} // verus!
