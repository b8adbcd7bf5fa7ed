use crate::hex_codec::hex_of;
use crate::literal::{
    decoded_spec, lemma_round_trip,
    encoded_literal, encoded_spec, literal_value, string_literal_text, string_literal_value_of,
    string_value,
};
use crate::segment::{segment, segments_from, Segment, SegmentView};
use crate::token::{
    copy_token, lemma_trees_index, lemma_trees_push, trees, Delimiter, Token,
    TokenTree,
};
use vstd::prelude::*;
use vstd::string::StringExecFns;

verus! {

/// `a` is what `b` describes: the same tree, but that where `b` asks for a
/// string literal holding some text, `a` may have any literal with that value.
pub open spec fn matches_tree(a: TokenTree, b: TokenTree) -> bool
    decreases b,
{
    a == b || match b {
        TokenTree::Group(d, y) => a is Group && a->Group_0 == d && matches_seq(a->Group_1, y),
        TokenTree::StringHolding(s) => a is Literal && string_literal_value_of(a->Literal_0)
            == Some(s),
        _ => false,
    }
}

/// `a` is what `b` describes, token by token.
pub open spec fn matches_seq(a: Seq<TokenTree>, b: Seq<TokenTree>) -> bool
    decreases b,
{
    a.len() == b.len() && (b.len() == 0 || (matches_seq(a.drop_last(), b.drop_last())
        && matches_tree(a.last(), b.last())))
}

pub proof fn lemma_matches_push(a: Seq<TokenTree>, b: Seq<TokenTree>, x: TokenTree, y: TokenTree)
    requires
        matches_seq(a, b),
        matches_tree(x, y),
    ensures
        matches_seq(a.push(x), b.push(y)),
{
    assert(a.push(x).drop_last() =~= a);
    assert(b.push(y).drop_last() =~= b);
}

pub proof fn lemma_matches_refl(a: Seq<TokenTree>)
    ensures
        matches_seq(a, a),
    decreases a.len(),
{
    if a.len() > 0 {
        lemma_matches_refl(a.drop_last());
        assert(matches_tree(a.last(), a.last()));
    }
}

pub proof fn lemma_matches_add(a: Seq<TokenTree>, b: Seq<TokenTree>, c: Seq<TokenTree>, d: Seq<
    TokenTree,
>)
    requires
        matches_seq(a, b),
        matches_seq(c, d),
    ensures
        matches_seq(a + c, b + d),
    decreases d.len(),
{
    if d.len() == 0 {
        assert(a + c =~= a);
        assert(b + d =~= b);
    } else {
        lemma_matches_add(a, b, c.drop_last(), d.drop_last());
        assert((a + c).drop_last() =~= a + c.drop_last());
        assert((b + d).drop_last() =~= b + d.drop_last());
    }
}

/// The names of the formatting invocations whose first argument is a template.
pub open spec fn is_format_name(s: Seq<char>) -> bool {
    s == "print"@ || s == "println"@ || s == "format"@
}

/// The source text of a plain string literal holding `s`; only used for hex
/// text, which needs no escapes.
pub open spec fn quoted(s: Seq<char>) -> Seq<char> {
    "\""@ + s + "\""@
}

/// The expression that rebuilds a text from its hex form at run time:
/// `{ encryption_macros::decode_literal("<hex>", ENCRYPTION_KEY_BUFFER).unwrap() }`,
/// where `ENCRYPTION_KEY_BUFFER` is the build's key constant in scope at the
/// expansion site.
pub open spec fn decode_scope_spec(hex: Seq<char>) -> TokenTree {
    TokenTree::Group(
        Delimiter::Brace,
        seq![
            TokenTree::Ident("encryption_macros"@),
            TokenTree::Punct(':', true),
            TokenTree::Punct(':', false),
            TokenTree::Ident("decode_literal"@),
            TokenTree::Group(
                Delimiter::Parenthesis,
                seq![
                    TokenTree::Literal(quoted(hex)),
                    TokenTree::Punct(',', false),
                    TokenTree::Ident("ENCRYPTION_KEY_BUFFER"@),
                ],
            ),
            TokenTree::Punct('.', false),
            TokenTree::Ident("unwrap"@),
            TokenTree::Group(Delimiter::Parenthesis, Seq::empty()),
        ],
    )
}

/// The template that replaces a formatting literal: every text run becomes an
/// empty `{}` slot, every placeholder stays as it was.
pub open spec fn template_of(segs: Seq<SegmentView>) -> Seq<char>
    decreases segs.len(),
{
    if segs.len() == 0 {
        Seq::empty()
    } else {
        template_of(segs.drop_last()) + match segs.last() {
            SegmentView::Text(_) => "{}"@,
            SegmentView::Placeholder(p) => p,
        }
    }
}

/// The decode expressions of the text runs among `segs`, in order.
pub open spec fn run_scopes(segs: Seq<SegmentView>, key: Seq<u8>) -> Seq<TokenTree>
    decreases segs.len(),
{
    if segs.len() == 0 {
        Seq::empty()
    } else {
        run_scopes(segs.drop_last(), key) + match segs.last() {
            SegmentView::Text(t) => seq![decode_scope_spec(encoded_spec(t, key))],
            SegmentView::Placeholder(_) => Seq::empty(),
        }
    }
}

/// `items` separated by commas.
pub open spec fn comma_list(items: Seq<TokenTree>) -> Seq<TokenTree>
    decreases items.len(),
{
    if items.len() <= 1 {
        items
    } else {
        comma_list(items.drop_last()) + seq![TokenTree::Punct(',', false), items.last()]
    }
}

/// What replaces the template literal of a formatting invocation: the new
/// template, a comma, and the decode expressions of its text runs.
pub open spec fn format_tokens_spec(text: Seq<char>, key: Seq<u8>) -> Seq<TokenTree> {
    let segs = segments_from(text, 0);
    seq![
        TokenTree::StringHolding(template_of(segs)),
        TokenTree::Punct(',', false),
    ] + comma_list(run_scopes(segs, key))
}

/// `ts[i]` is a `!` punctuation mark.
pub open spec fn is_bang_at(ts: Seq<TokenTree>, i: int) -> bool {
    0 <= i < ts.len() && ts[i] is Punct && ts[i]->Punct_0 == '!'
}

/// `ts[i]` is a group in square brackets.
pub open spec fn is_bracket_group_at(ts: Seq<TokenTree>, i: int) -> bool {
    0 <= i < ts.len() && ts[i] is Group && ts[i]->Group_0 == Delimiter::Bracket
}

/// The rewrite of `ts` from index `i` on, `fmt` telling whether the next
/// string literal is the template of a formatting invocation.
///
/// A group is rebuilt with the same delimiter around its rewritten contents;
/// a pending template flag is handed into it and cleared here. A string
/// literal with a non-empty value becomes the new template and its decode
/// arguments when the flag is set (which clears it), and else its decode
/// expression. Other literals, including the empty string, stay. A formatting
/// name followed by `!` sets the flag. A `#` followed by a bracket group is
/// kept together with that group, which is not looked into. Everything else
/// stays.
pub open spec fn rewrite_from(ts: Seq<TokenTree>, i: int, fmt: bool, key: Seq<u8>) -> Seq<
    TokenTree,
>
    decreases ts, ts.len() - i,
    when 0 <= i <= ts.len()
{
    if i >= ts.len() {
        Seq::empty()
    } else {
        match ts[i] {
            TokenTree::Group(d, inner) => seq![
                TokenTree::Group(d, rewrite_from(inner, 0, fmt, key)),
            ] + rewrite_from(ts, i + 1, false, key),
            TokenTree::Literal(raw) => match string_value(raw) {
                Some(v) => if v.len() == 0 {
                    seq![ts[i]] + rewrite_from(ts, i + 1, fmt, key)
                } else if fmt {
                    format_tokens_spec(v, key) + rewrite_from(ts, i + 1, false, key)
                } else {
                    seq![decode_scope_spec(encoded_spec(v, key))] + rewrite_from(ts, i + 1, fmt, key)
                },
                None => seq![ts[i]] + rewrite_from(ts, i + 1, fmt, key),
            },
            TokenTree::Ident(name) => seq![ts[i]] + rewrite_from(
                ts,
                i + 1,
                fmt || (is_format_name(name) && is_bang_at(ts, i + 1)),
                key,
            ),
            TokenTree::Punct(c, _) => if c == '#' && is_bracket_group_at(ts, i + 1) {
                seq![ts[i], ts[i + 1]] + rewrite_from(ts, i + 2, fmt, key)
            } else {
                seq![ts[i]] + rewrite_from(ts, i + 1, fmt, key)
            },
            TokenTree::StringHolding(_) => seq![ts[i]] + rewrite_from(ts, i + 1, fmt, key),
        }
    }
}

/// The rewrite of a whole scope.
pub open spec fn rewrite_spec(ts: Seq<TokenTree>, fmt: bool, key: Seq<u8>) -> Seq<TokenTree> {
    rewrite_from(ts, 0, fmt, key)
}

fn ident(s: &str) -> (r: Token)
    ensures
        r.tree() == TokenTree::Ident(s@),
{
    Token::Ident(String::from_str(s))
}

/// Builds the decode expression for one encoded text run.
pub fn generate_decode_scope(hex_encoded_bytes: String) -> (r: Token)
    ensures
        r.tree() == decode_scope_spec(hex_encoded_bytes@),
{
    let mut lit = String::from_str("\"");
    lit.append(hex_encoded_bytes.as_str());
    lit.append("\"");
    let mut args: Vec<Token> = Vec::new();
    args.push(Token::Literal(lit));
    args.push(Token::Punct(',', false));
    args.push(ident("ENCRYPTION_KEY_BUFFER"));
    let mut body: Vec<Token> = Vec::new();
    body.push(ident("encryption_macros"));
    body.push(Token::Punct(':', true));
    body.push(Token::Punct(':', false));
    body.push(ident("decode_literal"));
    body.push(Token::Group(Delimiter::Parenthesis, args));
    body.push(Token::Punct('.', false));
    body.push(ident("unwrap"));
    body.push(Token::Group(Delimiter::Parenthesis, Vec::new()));
    proof {
        reveal_with_fuel(trees, 9);
        assert(trees(Seq::<Token>::empty()) =~= Seq::<TokenTree>::empty());
        assert(trees(args@) =~= seq![
            TokenTree::Literal(quoted(hex_encoded_bytes@)),
            TokenTree::Punct(',', false),
            TokenTree::Ident("ENCRYPTION_KEY_BUFFER"@),
        ]);
        assert(trees(body@) =~= decode_scope_spec(hex_encoded_bytes@)->Group_1);
    }
    Token::Group(Delimiter::Brace, body)
}

/// Rewrites the template literal of a formatting invocation: a new template
/// with an empty `{}` slot for each text run and the placeholders kept, then a
/// comma and the decode expressions of the runs, comma separated, in order.
pub fn parse_format_args_literal(literal: &str, key: &[u8]) -> (r: Vec<Token>)
    ensures
        matches_seq(trees(r@), format_tokens_spec(literal@, key@)),
{
    let segs = segment(literal);
    let ghost sv = segs@.map_values(|x: Segment| x@);
    let mut template = String::new();
    let mut scopes: Vec<Token> = Vec::new();
    let mut k: usize = 0;
    while k < segs.len()
        invariant
            k <= segs@.len(),
            sv == segs@.map_values(|x: Segment| x@),
            sv == segments_from(literal@, 0),
            template@ == template_of(sv.take(k as int)),
            trees(scopes@) == run_scopes(sv.take(k as int), key@),
        decreases segs@.len() - k,
    {
        proof {
            assert(sv.take(k + 1).drop_last() =~= sv.take(k as int));
            assert(sv.take(k + 1).last() == segs@[k as int]@);
        }
        match &segs[k] {
            Segment::Text(t) => {
                template.append("{}");
                let hex = encoded_literal(t.as_str(), key);
                let scope = generate_decode_scope(hex);
                proof {
                    lemma_trees_push(scopes@, scope);
                }
                scopes.push(scope);
            },
            Segment::Placeholder(p) => {
                template.append(p.as_str());
                proof {
                    assert(run_scopes(sv.take(k as int), key@) + Seq::<TokenTree>::empty()
                        =~= run_scopes(sv.take(k as int), key@));
                }
            },
        }
        k += 1;
    }
    proof {
        assert(sv.take(k as int) =~= sv);
        lemma_trees_index(scopes@);
    }
    let mut out: Vec<Token> = Vec::new();
    let text = string_literal_text(template.as_str());
    let ghost tv = text@;
    out.push(Token::Literal(text));
    out.push(Token::Punct(',', false));
    let ghost head = trees(out@);
    let ghost spec_head = seq![
        TokenTree::StringHolding(template@),
        TokenTree::Punct(',', false),
    ];
    proof {
        reveal_with_fuel(trees, 3);
        assert(head =~= seq![TokenTree::Literal(tv), TokenTree::Punct(',', false)]);
        let e = Seq::<TokenTree>::empty();
        lemma_matches_push(e, e, TokenTree::Literal(tv), TokenTree::StringHolding(template@));
        lemma_matches_push(
            e.push(TokenTree::Literal(tv)),
            e.push(TokenTree::StringHolding(template@)),
            TokenTree::Punct(',', false),
            TokenTree::Punct(',', false),
        );
        assert(e.push(TokenTree::Literal(tv)).push(TokenTree::Punct(',', false)) =~= head);
        assert(e.push(TokenTree::StringHolding(template@)).push(TokenTree::Punct(',', false))
            =~= spec_head);
    }
    let ghost items = trees(scopes@);
    let mut j: usize = 0;
    while j < scopes.len()
        invariant
            j <= scopes@.len(),
            items == trees(scopes@),
            items.len() == scopes@.len(),
            forall|m: int| 0 <= m < scopes@.len() ==> #[trigger] items[m] == scopes@[m].tree(),
            trees(out@) == head + comma_list(items.take(j as int)),
        decreases scopes@.len() - j,
    {
        proof {
            assert(items.take(j + 1).drop_last() =~= items.take(j as int));
        }
        if j > 0 {
            let comma = Token::Punct(',', false);
            proof {
                lemma_trees_push(out@, comma);
            }
            out.push(comma);
        }
        let t = copy_token(&scopes[j]);
        proof {
            lemma_trees_push(out@, t);
            if j == 0 {
                assert(items.take(1) =~= seq![items[0]]);
            }
        }
        out.push(t);
        j += 1;
    }
    proof {
        assert(items.take(j as int) =~= items);
        lemma_matches_refl(comma_list(items));
        lemma_matches_add(head, spec_head, comma_list(items), comma_list(items));
    }
    out
}

/// Why a single-literal invocation has nothing to obfuscate.
#[derive(Clone, Copy, Debug, PartialEq, Eq, Structural)]
pub enum MacroError {
    /// The invocation holds no token.
    NoToken,
    /// Its first token is not a string literal.
    NotAStringLiteral,
}

/// The value of the string literal that opens `ts`, if it opens with one.
pub open spec fn first_string_value(ts: Seq<TokenTree>) -> Option<Seq<char>> {
    if ts.len() > 0 && ts[0] is Literal {
        string_value(ts[0]->Literal_0)
    } else {
        None
    }
}

/// The decode expression for the string literal that opens `tokens`.
pub fn e(tokens: &Vec<Token>, key: &[u8]) -> (r: Result<Token, MacroError>)
    ensures
        tokens@.len() == 0 ==> r == Err::<Token, MacroError>(MacroError::NoToken),
        tokens@.len() > 0 && first_string_value(trees(tokens@)) is None ==> r == Err::<
            Token,
            MacroError,
        >(MacroError::NotAStringLiteral),
        first_string_value(trees(tokens@)) matches Some(v) ==> r is Ok && r->Ok_0.tree()
            == decode_scope_spec(encoded_spec(v, key@)),
{
    proof {
        lemma_trees_index(tokens@);
    }
    if tokens.len() == 0 {
        return Err(MacroError::NoToken);
    }
    match &tokens[0] {
        Token::Literal(raw) => match literal_value(raw.as_str()) {
            Some(v) => Ok(generate_decode_scope(encoded_literal(v.as_str(), key))),
            None => Err(MacroError::NotAStringLiteral),
        },
        _ => Err(MacroError::NotAStringLiteral),
    }
}

/// Rewrites every string literal of a scope, at any depth.
pub fn encrypt_strings(tokens: &Vec<Token>, key: &[u8]) -> (r: Vec<Token>)
    ensures
        matches_seq(trees(r@), rewrite_spec(trees(tokens@), false, key@)),
{
    parse_scope(tokens, false, key)
}

/// Rewrites every string literal of an annotated item; the annotation's own
/// arguments are not used.
pub fn encrypt_all_strings(metadata: &Vec<Token>, tokens: &Vec<Token>, key: &[u8]) -> (r: Vec<
    Token,
>)
    ensures
        matches_seq(trees(r@), rewrite_spec(trees(tokens@), false, key@)),
{
    encrypt_strings(tokens, key)
}

fn is_format_ident(name: &String) -> (r: bool)
    ensures
        r == is_format_name(name@),
{
    *name == String::from_str("print") || *name == String::from_str("println") || *name
        == String::from_str("format")
}

/// Rewrites one scope and, recursively, every group in it, as
/// [`rewrite_from`] describes; `format_arg_literal` tells whether the first
/// string literal met is the template of a formatting invocation.
#[verifier::rlimit(60)]
#[verifier::spinoff_prover]
pub fn parse_scope(tokens: &Vec<Token>, format_arg_literal: bool, key: &[u8]) -> (r: Vec<Token>)
    ensures
        matches_seq(trees(r@), rewrite_spec(trees(tokens@), format_arg_literal, key@)),
    decreases tokens@,
{
    let ghost ts = trees(tokens@);
    proof {
        lemma_trees_index(tokens@);
    }
    let n = tokens.len();
    let mut out: Vec<Token> = Vec::new();
    let mut flag = format_arg_literal;
    let mut i: usize = 0;
    let ghost mut exp: Seq<TokenTree> = Seq::empty();
    while i < n
        invariant
            n == tokens@.len(),
            i <= n,
            ts == trees(tokens@),
            ts.len() == n,
            forall|m: int| 0 <= m < n ==> #[trigger] ts[m] == tokens@[m].tree(),
            matches_seq(trees(out@), exp),
            exp + rewrite_from(ts, i as int, flag, key@) == rewrite_from(
                ts,
                0,
                format_arg_literal,
                key@,
            ),
        decreases n - i,
    {
        let ghost e0 = exp;
        let ghost i0 = i as int;
        let ghost flag0 = flag;
        match &tokens[i] {
            Token::Group(d, inner) => {
                assert(decreases_to!(tokens@ => inner@)) by {
                    assert(decreases_to!(tokens@ => tokens@[i as int]));
                }
                let g = parse_scope(inner, flag, key);
                let t = Token::Group(*d, g);
                let ghost want = TokenTree::Group(*d, rewrite_from(trees(inner@), 0, flag, key@));
                proof {
                    lemma_matches_push(trees(out@), e0, t.tree(), want);
                    lemma_trees_push(out@, t);
                    exp = e0.push(want);
                }
                out.push(t);
                flag = false;
                i += 1;
                proof {
                    assert(exp + rewrite_from(ts, i as int, flag, key@) =~= e0 + rewrite_from(
                        ts,
                        i0,
                        flag0,
                        key@,
                    ));
                }
            },
            Token::Literal(raw) => {
                let value = literal_value(raw.as_str());
                let mut handled = false;
                if let Some(v) = value {
                    if !v.as_str().is_empty() {
                        handled = true;
                        if flag {
                            let f = parse_format_args_literal(v.as_str(), key);
                            proof {
                                lemma_matches_add(
                                    trees(out@),
                                    e0,
                                    trees(f@),
                                    format_tokens_spec(v@, key@),
                                );
                                exp = e0 + format_tokens_spec(v@, key@);
                            }
                            push_all(&mut out, &f);
                            flag = false;
                        } else {
                            let t = generate_decode_scope(encoded_literal(v.as_str(), key));
                            proof {
                                lemma_matches_push(trees(out@), e0, t.tree(), t.tree());
                                lemma_trees_push(out@, t);
                                exp = e0.push(t.tree());
                            }
                            out.push(t);
                        }
                    }
                }
                if !handled {
                    let t = copy_token(&tokens[i]);
                    proof {
                        lemma_matches_push(trees(out@), e0, t.tree(), t.tree());
                        lemma_trees_push(out@, t);
                        exp = e0.push(t.tree());
                    }
                    out.push(t);
                }
                i += 1;
                proof {
                    assert(exp + rewrite_from(ts, i as int, flag, key@) =~= e0 + rewrite_from(
                        ts,
                        i0,
                        flag0,
                        key@,
                    ));
                }
            },
            Token::Ident(name) => {
                let starts_format = is_format_ident(name) && i + 1 < n && match &tokens[i + 1] {
                    Token::Punct(c, _) => *c == '!',
                    _ => false,
                };
                let t = copy_token(&tokens[i]);
                proof {
                    lemma_matches_push(trees(out@), e0, t.tree(), t.tree());
                    lemma_trees_push(out@, t);
                    exp = e0.push(t.tree());
                }
                out.push(t);
                if starts_format {
                    flag = true;
                }
                i += 1;
                proof {
                    assert(exp + rewrite_from(ts, i as int, flag, key@) =~= e0 + rewrite_from(
                        ts,
                        i0,
                        flag0,
                        key@,
                    ));
                }
            },
            Token::Punct(c, _) => {
                let attribute = *c == '#' && i + 1 < n && match &tokens[i + 1] {
                    Token::Group(Delimiter::Bracket, _) => true,
                    _ => false,
                };
                let t = copy_token(&tokens[i]);
                proof {
                    lemma_matches_push(trees(out@), e0, t.tree(), t.tree());
                    lemma_trees_push(out@, t);
                    exp = e0.push(t.tree());
                }
                out.push(t);
                if attribute {
                    let g = copy_token(&tokens[i + 1]);
                    proof {
                        lemma_matches_push(trees(out@), exp, g.tree(), g.tree());
                        lemma_trees_push(out@, g);
                        exp = exp.push(g.tree());
                    }
                    out.push(g);
                    i += 2;
                } else {
                    i += 1;
                }
                proof {
                    assert(exp + rewrite_from(ts, i as int, flag, key@) =~= e0 + rewrite_from(
                        ts,
                        i0,
                        flag0,
                        key@,
                    ));
                }
            },
        }
    }
    proof {
        assert(exp + Seq::<TokenTree>::empty() =~= exp);
    }
    out
}

/// `ts` from index `i` on, groups included, holds no string literal with a
/// non-empty value: nothing there is for the rewriter to hide.
pub open spec fn plain_from(ts: Seq<TokenTree>, i: int) -> bool
    decreases ts, ts.len() - i,
    when 0 <= i <= ts.len()
{
    if i >= ts.len() {
        true
    } else {
        let here = match ts[i] {
            TokenTree::Group(_, inner) => plain_from(inner, 0),
            TokenTree::Literal(raw) => match string_value(raw) {
                Some(v) => v.len() == 0,
                None => true,
            },
            _ => true,
        };
        here && plain_from(ts, i + 1)
    }
}

/// Tokens with no non-empty string literal (other literals, identifiers,
/// formatting names included, punctuation, and groups of such) come out of the
/// rewrite exactly as they went in.
pub proof fn lemma_pass_through(ts: Seq<TokenTree>, i: int, fmt: bool, key: Seq<u8>)
    requires
        0 <= i <= ts.len(),
        plain_from(ts, i),
    ensures
        rewrite_from(ts, i, fmt, key) == ts.subrange(i, ts.len() as int),
    decreases ts, ts.len() - i,
{
    if i < ts.len() {
        let f2 = match ts[i] {
            TokenTree::Group(_, _) => false,
            TokenTree::Ident(name) => fmt || (is_format_name(name) && is_bang_at(ts, i + 1)),
            _ => fmt,
        };
        lemma_pass_through(ts, i + 1, f2, key);
        if let TokenTree::Group(d, inner) = ts[i] {
            assert(decreases_to!(ts => inner)) by {
                assert(decreases_to!(ts => ts[i]));
            }
            lemma_pass_through(inner, 0, fmt, key);
            assert(inner.subrange(0, inner.len() as int) =~= inner);
        }
        if let TokenTree::Punct(c, _) = ts[i] {
            if c == '#' && is_bracket_group_at(ts, i + 1) {
                assert(plain_from(ts, i + 1));
                assert(plain_from(ts, i + 2));
                lemma_pass_through(ts, i + 2, fmt, key);
                assert(seq![ts[i], ts[i + 1]] + ts.subrange(i + 2, ts.len() as int)
                    =~= ts.subrange(i, ts.len() as int));
            }
        }
        assert(seq![ts[i]] + ts.subrange(i + 1, ts.len() as int) =~= ts.subrange(
            i,
            ts.len() as int,
        ));
    }
}

/// A string literal with a non-empty value, at any position of a scope where
/// no formatting template is pending, becomes exactly one decode expression,
/// followed by the rewrite of the rest; that expression, run against the hex
/// form of the same key, gives the literal's value back.
pub proof fn lemma_rewrite_round_trip(ts: Seq<TokenTree>, i: int, key: Seq<u8>)
    requires
        0 <= i < ts.len(),
        ts[i] is Literal,
        string_value(ts[i]->Literal_0) is Some,
        string_value(ts[i]->Literal_0)->Some_0.len() > 0,
    ensures
        ({
            let v = string_value(ts[i]->Literal_0)->Some_0;
            &&& rewrite_from(ts, i, false, key) == seq![decode_scope_spec(encoded_spec(v, key))]
                + rewrite_from(ts, i + 1, false, key)
            &&& decoded_spec(encoded_spec(v, key), hex_of(key)) == Some(v)
        }),
{
    lemma_round_trip(string_value(ts[i]->Literal_0)->Some_0, key);
}

/// An identifier, a punctuation mark, or a literal that is no string literal
/// with a non-empty value comes out of the rewrite first, as it was, wherever
/// it stands and whatever the pending template flag; the rest follows from the
/// next token on.
pub proof fn lemma_token_kept(ts: Seq<TokenTree>, i: int, fmt: bool, key: Seq<u8>)
    requires
        0 <= i < ts.len(),
        ts[i] is Ident || ts[i] is Punct || (ts[i] is Literal && !(string_value(
            ts[i]->Literal_0,
        ) is Some && string_value(ts[i]->Literal_0)->Some_0.len() > 0)),
    ensures
        rewrite_from(ts, i, fmt, key).len() > 0,
        rewrite_from(ts, i, fmt, key)[0] == ts[i],
{
}

/// Every text run of a formatting template decodes back to itself: the
/// decode arguments that follow the new template give the original text.
pub proof fn lemma_format_round_trip(text: Seq<char>, key: Seq<u8>, k: int)
    requires
        0 <= k < segments_from(text, 0).len(),
        segments_from(text, 0)[k] is Text,
    ensures
        decoded_spec(encoded_spec(segments_from(text, 0)[k]->Text_0, key), hex_of(key)) == Some(
            segments_from(text, 0)[k]->Text_0,
        ),
{
    lemma_round_trip(segments_from(text, 0)[k]->Text_0, key);
}

/// Appends copies of `items` to `out`.
fn push_all(out: &mut Vec<Token>, items: &Vec<Token>)
    ensures
        trees(final(out)@) == trees(old(out)@) + trees(items@),
{
    let ghost start = out@;
    let mut i: usize = 0;
    while i < items.len()
        invariant
            i <= items@.len(),
            trees(out@) == trees(start) + trees(items@.take(i as int)),
        decreases items@.len() - i,
    {
        let t = copy_token(&items[i]);
        proof {
            lemma_trees_push(out@, t);
            lemma_trees_push(items@.take(i as int), items@[i as int]);
            assert(items@.take(i as int).push(items@[i as int]) =~= items@.take(i + 1));
        }
        out.push(t);
        i += 1;
    }
    proof {
        assert(items@.take(i as int) =~= items@);
    }
}

} // verus!
