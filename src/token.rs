//! Tokens of a chapter and the directive expansion over them.
use vstd::prelude::*;
use vstd::string::*;
use crate::KclError;
use crate::directive::{
    close_delim, directive_body, directive_payload, open_delim, parse_directive, parse_fields, Directive,
    DirectiveView,
};
use crate::text::{has_prefix, has_suffix, trimmed};

verus! {

/// pulldown-cmark's event, carried through the expansion without being read.
#[verifier::external_type_specification]
#[verifier::external_body]
pub struct ExEvent<'a>(pulldown_cmark::Event<'a>);

/// One unit of a tokenized chapter. Raw HTML blocks and the pieces that the
/// expansion emits are spelled out; every other markdown event is carried
/// through unchanged.
pub enum Token {
    Html(String),
    ParagraphStart,
    ImageStart { dest: String, title: String },
    Text(String),
    ImageEnd,
    ParagraphEnd,
    Other(pulldown_cmark::Event<'static>),
}

/// The mathematical value of a [`Token`].
pub enum TokenView {
    Html(Seq<char>),
    ParagraphStart,
    ImageStart { dest: Seq<char>, title: Seq<char> },
    Text(Seq<char>),
    ImageEnd,
    ParagraphEnd,
    Other(pulldown_cmark::Event<'static>),
}

impl View for Token {
    type V = TokenView;

    open spec fn view(&self) -> TokenView {
        match self {
            Token::Html(s) => TokenView::Html(s@),
            Token::ParagraphStart => TokenView::ParagraphStart,
            Token::ImageStart { dest, title } => TokenView::ImageStart {
                dest: dest@,
                title: title@,
            },
            Token::Text(s) => TokenView::Text(s@),
            Token::ImageEnd => TokenView::ImageEnd,
            Token::ParagraphEnd => TokenView::ParagraphEnd,
            Token::Other(e) => TokenView::Other(*e),
        }
    }
}

/// The views of a sequence of tokens.
pub open spec fn views(ts: Seq<Token>) -> Seq<TokenView> {
    ts.map_values(|t: Token| t@)
}

/// The `<model-viewer>` element that shows the model of `d`.
pub open spec fn model_viewer_html(d: DirectiveView) -> Seq<char> {
    "<model-viewer\n            alt=\""@ + d.alt + "\"\n            src=\"gltf/"@ + d.name
        + "/output.gltf\"\n            poster=\"images/dynamic/"@ + d.name
        + ".png\"\n            ar\n            environment-image=\"images/whipple_creek.jpg\"\n            shadow-intensity=\"1\"\n            auto-rotate\n            camera-controls touch-action=\"pan-y\">\n            </model-viewer>"@
}

/// The path of the still image of the model called `name`.
pub open spec fn poster_path(name: Seq<char>) -> Seq<char> {
    "images/dynamic/"@ + name + ".png"@
}

/// Title and text of the fallback image.
pub open spec fn fallback_caption(alt: Seq<char>) -> Seq<char> {
    "2D fallback: "@ + alt
}

/// What a directive is replaced with: the 3D element, or a paragraph that
/// holds only the fallback image.
pub open spec fn shape_of(d: DirectiveView) -> Seq<TokenView> {
    if !d.skip3d {
        seq![TokenView::Html(model_viewer_html(d))]
    } else {
        seq![
            TokenView::ParagraphStart,
            TokenView::ImageStart { dest: poster_path(d.name), title: fallback_caption(d.alt) },
            TokenView::Text(fallback_caption(d.alt)),
            TokenView::ImageEnd,
            TokenView::ParagraphEnd,
        ]
    }
}

/// Whether `t` is a directive with both delimiters.
pub open spec fn is_directive(t: TokenView) -> bool {
    t matches TokenView::Html(h) && directive_body(h) is Some
}

/// What `t` becomes, or `None` when it is a directive with a malformed field.
pub open spec fn expand_token(t: TokenView) -> Option<Seq<TokenView>> {
    match t {
        TokenView::Html(h) => match directive_body(h) {
            Some(b) => match parse_fields(b) {
                Some(d) => Some(shape_of(d)),
                None => None,
            },
            None => Some(seq![t]),
        },
        _ => Some(seq![t]),
    }
}

/// Every token replaced by its expansion, or `None` when one of them fails.
pub open spec fn expand_all(ts: Seq<TokenView>) -> Option<Seq<TokenView>>
    decreases ts.len(),
{
    if ts.len() == 0 {
        Some(Seq::empty())
    } else {
        match (expand_all(ts.drop_last()), expand_token(ts.last())) {
            (Some(a), Some(b)) => Some(a + b),
            _ => None,
        }
    }
}

/// The number of directives with both delimiters in `ts`.
pub open spec fn count_directives(ts: Seq<TokenView>) -> nat
    decreases ts.len(),
{
    if ts.len() == 0 {
        0
    } else {
        count_directives(ts.drop_last()) + if is_directive(ts.last()) {
            1nat
        } else {
            0nat
        }
    }
}

/// The tokens that replace a directive.
pub fn emit(d: Directive) -> (r: Vec<Token>)
    ensures
        views(r@) == shape_of(d@),
{
    let r = if !d.skip3d {
        let mut s = String::from_str("<model-viewer\n            alt=\"");
        s.append(d.alt.as_str());
        s.append("\"\n            src=\"gltf/");
        s.append(d.name.as_str());
        s.append("/output.gltf\"\n            poster=\"images/dynamic/");
        s.append(d.name.as_str());
        s.append(
            ".png\"\n            ar\n            environment-image=\"images/whipple_creek.jpg\"\n            shadow-intensity=\"1\"\n            auto-rotate\n            camera-controls touch-action=\"pan-y\">\n            </model-viewer>",
        );
        vec![Token::Html(s)]
    } else {
        let mut dest = String::from_str("images/dynamic/");
        dest.append(d.name.as_str());
        dest.append(".png");
        let mut title = String::from_str("2D fallback: ");
        title.append(d.alt.as_str());
        let mut text = String::from_str("2D fallback: ");
        text.append(d.alt.as_str());
        vec![
            Token::ParagraphStart,
            Token::ImageStart { dest, title },
            Token::Text(text),
            Token::ImageEnd,
            Token::ParagraphEnd,
        ]
    };
    assert(views(r@) =~= shape_of(d@));
    r
}

/// Expands one token; the flag tells whether it was a directive with both
/// delimiters.
fn expand_one(t: Token) -> (r: Result<(Vec<Token>, bool), KclError>)
    ensures
        r is Ok <==> expand_token(t@) is Some,
        r matches Ok((v, found)) ==> expand_token(t@) == Some(views(v@)) && found
            == is_directive(t@),
        r matches Err(e) ==> e == KclError::MalformedField,
{
    match t {
        Token::Html(h) => {
            let payload = directive_payload(h.as_str());
            match payload {
                Some(b) => match parse_directive(b) {
                    Ok(d) => Ok((emit(d), true)),
                    Err(e) => Err(e),
                },
                None => {
                    let v = vec![Token::Html(h)];
                    assert(views(v@) =~= seq![t@]);
                    Ok((v, false))
                },
            }
        },
        other => {
            let v = vec![other];
            assert(views(v@) =~= seq![t@]);
            Ok((v, false))
        },
    }
}

/// Replaces each directive of `tokens` by its expansion and counts the
/// directives found; every other token is kept, in order. Fails when a
/// directive has a field without `=`.
pub fn expand_directives(tokens: Vec<Token>) -> (r: Result<(Vec<Token>, usize), KclError>)
    ensures
        r is Ok <==> expand_all(views(tokens@)) is Some,
        r matches Ok((out, n)) ==> expand_all(views(tokens@)) == Some(views(out@)) && n
            == count_directives(views(tokens@)),
        r matches Err(e) ==> e == KclError::MalformedField,
{
    let ghost vs = views(tokens@);
    let len = tokens.len();
    let mut rest = tokens;
    let mut out: Vec<Token> = Vec::new();
    let mut found: usize = 0;
    let mut i: usize = 0;
    assert(vs.take(0) =~= Seq::<TokenView>::empty());
    assert(tokens@.skip(0) =~= tokens@);
    while rest.len() > 0
        invariant
            i <= len,
            len == tokens@.len(),
            rest@.len() == len - i,
            vs == views(tokens@),
            rest@ == tokens@.skip(i as int),
            expand_all(vs.take(i as int)) == Some(views(out@)),
            found == count_directives(vs.take(i as int)),
            found <= i,
        decreases rest.len(),
    {
        let t = rest.remove(0);
        assert(t == tokens@[i as int]);
        assert(tokens@.skip(i as int).remove(0) =~= tokens@.skip(i + 1));
        assert(vs.take(i + 1).drop_last() =~= vs.take(i as int));
        match expand_one(t) {
            Ok((mut v, is_dir)) => {
                let ghost before = out@;
                let ghost piece = v@;
                out.append(&mut v);
                assert(views(out@) =~= views(before) + views(piece));
                if is_dir {
                    found = found + 1;
                }
            },
            Err(e) => {
                proof {
                    lemma_expand_none_extends(vs, i as int + 1);
                }
                return Err(e);
            },
        }
        i = i + 1;
    }
    assert(vs.take(i as int) =~= vs);
    Ok((out, found))
}

/// Once a prefix fails to expand, every longer prefix fails too.
proof fn lemma_expand_none_extends(ts: Seq<TokenView>, k: int)
    requires
        0 <= k <= ts.len(),
        expand_all(ts.take(k)) is None,
    ensures
        expand_all(ts) is None,
    decreases ts.len() - k,
{
    if k < ts.len() {
        assert(ts.take(k + 1).drop_last() =~= ts.take(k));
        lemma_expand_none_extends(ts, k + 1);
    } else {
        assert(ts.take(k) =~= ts);
    }
}

/// Tokens that expand to themselves, one by one.
pub open spec fn all_fixed(ts: Seq<TokenView>) -> bool {
    forall|k: int| 0 <= k < ts.len() ==> #[trigger] expand_token(ts[k]) == Some(seq![ts[k]])
}

/// A stream whose tokens each expand to themselves expands to itself.
pub proof fn lemma_fixed_stream(ts: Seq<TokenView>)
    requires
        all_fixed(ts),
    ensures
        expand_all(ts) == Some(ts),
    decreases ts.len(),
{
    if ts.len() > 0 {
        let init = ts.drop_last();
        assert(all_fixed(init)) by {
            assert forall|k: int| 0 <= k < init.len() implies #[trigger] expand_token(init[k])
                == Some(seq![init[k]]) by {
                assert(init[k] == ts[k]);
            }
        }
        lemma_fixed_stream(init);
        assert(expand_token(ts.last()) == Some(seq![ts[ts.len() - 1]]));
        assert(init + seq![ts.last()] =~= ts);
    }
}

/// The generated element is no directive.
proof fn lemma_model_viewer_not_directive(d: DirectiveView)
    ensures
        directive_body(model_viewer_html(d)) is None,
{
    let mv = model_viewer_html(d);
    reveal_strlit("<model-viewer\n            alt=\"");
    reveal_strlit("<!-- KCL: ");
    assert(mv[1] == 'm');
    assert(open_delim()[1] == '!');
    if has_prefix(mv, open_delim()) {
        assert(mv.take(open_delim().len() as int)[1] == mv[1]);
    }
}

/// The tokens that replace a directive each expand to themselves.
proof fn lemma_shape_fixed(d: DirectiveView)
    ensures
        all_fixed(shape_of(d)),
{
    lemma_model_viewer_not_directive(d);
}

/// Whatever the expansion produces expands to itself, one token at a time.
proof fn lemma_expansion_fixed(ts: Seq<TokenView>)
    requires
        expand_all(ts) is Some,
    ensures
        all_fixed(expand_all(ts)->0),
    decreases ts.len(),
{
    if ts.len() > 0 {
        lemma_expansion_fixed(ts.drop_last());
        let a = expand_all(ts.drop_last())->0;
        let b = expand_token(ts.last())->0;
        match ts.last() {
            TokenView::Html(h) => match directive_body(h) {
                Some(body) => {
                    lemma_shape_fixed(parse_fields(body)->0);
                },
                None => {},
            },
            _ => {},
        }
        assert(all_fixed(b));
        assert forall|k: int| 0 <= k < a.len() + b.len() implies #[trigger] expand_token(
            (a + b)[k],
        ) == Some(seq![(a + b)[k]]) by {
            if k < a.len() {
                assert((a + b)[k] == a[k]);
            } else {
                assert((a + b)[k] == b[k - a.len()]);
            }
        }
    }
}

/// Expanding the directives of an already expanded stream changes nothing:
/// the transform may be run twice with the same result.
pub proof fn lemma_expansion_idempotent(ts: Seq<TokenView>)
    requires
        expand_all(ts) is Some,
    ensures
        expand_all(expand_all(ts)->0) == expand_all(ts),
{
    lemma_expansion_fixed(ts);
    lemma_fixed_stream(expand_all(ts)->0);
}

/// Markup that opens a directive but does not close it with `-->` is kept as
/// it is.
pub proof fn lemma_unclosed_directive_kept(h: Seq<char>)
    requires
        !has_suffix(trimmed(h.skip(open_delim().len() as int)), close_delim()),
    ensures
        expand_token(TokenView::Html(h)) == Some(seq![TokenView::Html(h)]),
{
}

/// A stream without directives is left as it is.
pub proof fn lemma_directive_free_unchanged(ts: Seq<TokenView>)
    requires
        forall|k: int| 0 <= k < ts.len() ==> !is_directive(#[trigger] ts[k]),
    ensures
        expand_all(ts) == Some(ts),
        count_directives(ts) == 0,
    decreases ts.len(),
{
    assert(all_fixed(ts));
    lemma_fixed_stream(ts);
    if ts.len() > 0 {
        let init = ts.drop_last();
        assert forall|k: int| 0 <= k < init.len() implies !is_directive(#[trigger] init[k]) by {
            assert(init[k] == ts[k]);
        }
        lemma_directive_free_unchanged(init);
        assert(!is_directive(ts[ts.len() - 1]));
    }
}

} // verus!
