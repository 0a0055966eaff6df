//! Chapters: tokenizing markdown, expanding its directives and writing it
//! back, once per chapter of a book.
use vstd::prelude::*;
use vstd::string::*;
use pulldown_cmark::{Event, LinkType, Options, Tag, TagEnd};
use pulldown_cmark_to_cmark::cmark;
use crate::KclError;
use crate::text::has_prefix;
use crate::token::{
    count_directives, expand_all, expand_directives, views, Token, TokenView,
};

verus! {

/// pulldown-cmark-to-cmark's error, returned by `render` and mapped to
/// `KclError::Render`.
#[verifier::external_type_specification]
#[verifier::external_body]
pub struct ExCmarkError(pulldown_cmark_to_cmark::Error);

/// The tokens that pulldown-cmark reads from `text`.
pub uninterp spec fn tokens_of(text: Seq<char>) -> Seq<TokenView>;

/// The markdown that pulldown-cmark-to-cmark writes for `tokens`, or `None`
/// when it refuses them.
pub uninterp spec fn markdown_of(tokens: Seq<TokenView>) -> Option<Seq<char>>;

/// Relies on `pulldown_cmark::Parser::new` (default options): the events of
/// `text`, which depend on the text alone. HTML blocks become `Token::Html`.
#[verifier::external_body]
fn tokenize(text: &str) -> (r: Vec<Token>)
    ensures
        views(r@) == tokens_of(text@),
{
    pulldown_cmark::Parser::new(text).map(|e| match e {
        Event::Html(h) => Token::Html(h.to_string()),
        other => Token::Other(other.into_static()),
    }).collect()
}

/// Relies on `pulldown_cmark_to_cmark::cmark`: the markdown text of the
/// events, which depends on the events alone, or its error.
#[verifier::external_body]
fn render(tokens: Vec<Token>) -> (r: Result<String, pulldown_cmark_to_cmark::Error>)
    ensures
        r matches Ok(s) ==> markdown_of(views(tokens@)) == Some(s@),
        r is Err ==> markdown_of(views(tokens@)) is None,
{
    let events = tokens.into_iter().map(|t| match t {
        Token::Html(s) => Event::Html(s.into()),
        Token::ParagraphStart => Event::Start(Tag::Paragraph),
        Token::ImageStart { dest, title } => Event::Start(Tag::Image {
            link_type: LinkType::Inline, dest_url: dest.into(),
            title: title.into(), id: "".into() }),
        Token::Text(s) => Event::Text(s.into()),
        Token::ImageEnd => Event::End(TagEnd::Image),
        Token::ParagraphEnd => Event::End(TagEnd::Paragraph),
        Token::Other(e) => e,
    });
    let mut buf = String::new();
    cmark(events, &mut buf, Options::empty()).map(|_| buf)
}

/// The script element put at the start of every chapter, which loads the
/// `<model-viewer>` component.
pub open spec fn script_line() -> Seq<char> {
    "<script type=\"module\" src=\"scripts/model-viewer.min.js\"></script>\n"@
}

/// What transforming the markdown `text` gives: the new text and the number
/// of directives found, or the error.
pub open spec fn transform_spec(text: Seq<char>) -> Result<(Seq<char>, nat), KclError> {
    match expand_all(tokens_of(text)) {
        None => Err(KclError::MalformedField),
        Some(out) => match markdown_of(out) {
            Some(md) => Ok((md, count_directives(tokens_of(text)))),
            None => Err(KclError::Render),
        },
    }
}

/// What processing a chapter whose text is `content` gives.
pub open spec fn chapter_spec(content: Seq<char>) -> Result<(Seq<char>, nat), KclError> {
    transform_spec(script_line() + content)
}

/// `r` is the text and count that `spec` describes.
pub open spec fn agrees(r: Result<(String, usize), KclError>, spec: Result<(Seq<char>, nat), KclError>) -> bool {
    match spec {
        Ok((md, n)) => r matches Ok((s, c)) && s@ == md && c == n,
        Err(e) => r == Err::<(String, usize), KclError>(e),
    }
}

/// Tokenizes `text`, expands its directives and writes it back as markdown.
pub fn transform_markdown(text: &str) -> (r: Result<(String, usize), KclError>)
    ensures
        agrees(r, transform_spec(text@)),
{
    let tokens = tokenize(text);
    let (out, n) = match expand_directives(tokens) {
        Ok(p) => p,
        Err(e) => return Err(e),
    };
    match render(out) {
        Ok(s) => Ok((s, n)),
        Err(_) => Err(KclError::Render),
    }
}

/// `content` with the script element in front.
pub fn with_script(content: &str) -> (r: String)
    ensures
        r@ == script_line() + content@,
        has_prefix(r@, script_line()),
{
    let mut r = String::from_str(
        "<script type=\"module\" src=\"scripts/model-viewer.min.js\"></script>\n",
    );
    r.append(content);
    assert(r@.take(script_line().len() as int) =~= script_line());
    r
}

/// Puts the script element in front of a chapter's text and transforms it.
pub fn process_chapter(content: &str) -> (r: Result<(String, usize), KclError>)
    ensures
        agrees(r, chapter_spec(content@)),
{
    let text = with_script(content);
    transform_markdown(text.as_str())
}

/// The new text of a chapter whose text is `content`, or nothing when it fails.
pub open spec fn chapter_text(content: Seq<char>) -> Seq<char> {
    match chapter_spec(content) {
        Ok((md, _)) => md,
        Err(_) => Seq::empty(),
    }
}

/// The number of directives in a chapter whose text is `content`, or zero
/// when it fails.
pub open spec fn chapter_count(content: Seq<char>) -> nat {
    match chapter_spec(content) {
        Ok((_, n)) => n,
        Err(_) => 0,
    }
}

/// The number of directives in all the chapters.
pub open spec fn total_directives(cs: Seq<String>) -> nat
    decreases cs.len(),
{
    if cs.len() == 0 {
        0
    } else {
        total_directives(cs.drop_last()) + chapter_count(cs.last()@)
    }
}

/// `n`, or `usize::MAX` when it does not fit.
pub open spec fn capped(n: nat) -> nat {
    if n <= usize::MAX {
        n
    } else {
        usize::MAX as nat
    }
}

/// Processes every chapter, in order. The run succeeds only when every
/// chapter does; then it gives each chapter's new text and the number of
/// directives found (at most `usize::MAX`). Otherwise it gives the error of
/// the last chapter that failed.
pub fn process_chapters(contents: &Vec<String>) -> (r: Result<(Vec<String>, usize), KclError>)
    ensures
        r is Ok <==> forall|i: int| 0 <= i < contents@.len() ==> (#[trigger] chapter_spec(contents@[i]@)) is Ok,
        r matches Ok((outs, n)) ==> outs@.len() == contents@.len() && n == capped(
            total_directives(contents@),
        ) && forall|i: int| 0 <= i < contents@.len() ==> #[trigger] outs@[i]@ == chapter_text(contents@[i]@),
        r matches Err(e) ==> exists|i: int|
            0 <= i < contents@.len() && #[trigger] chapter_spec(contents@[i]@) == Err::<(Seq<char>, nat), KclError>(e)
                && forall|j: int| i < j < contents@.len() ==> (#[trigger] chapter_spec(contents@[j]@)) is Ok,
{
    let len = contents.len();
    let mut outs: Vec<String> = Vec::new();
    let mut failed: Option<KclError> = None;
    let mut total: usize = 0;
    let mut i: usize = 0;
    let ghost mut last: int = -1;
    while i < len
        invariant
            i <= len,
            len == contents@.len(),
            total == capped(total_directives(contents@.take(i as int))),
            failed is None ==> outs@.len() == i && forall|k: int| 0 <= k < i ==> (#[trigger] chapter_spec(contents@[k]@)) is Ok
                && outs@[k]@ == chapter_text(contents@[k]@),
            failed matches Some(e) ==> 0 <= last < i && chapter_spec(contents@[last]@) == Err::<(Seq<char>, nat), KclError>(e)
                && forall|j: int| last < j < i ==> (#[trigger] chapter_spec(contents@[j]@)) is Ok,
        decreases len - i,
    {
        assert(contents@.take(i + 1).drop_last() =~= contents@.take(i as int));
        match process_chapter(contents[i].as_str()) {
            Ok((s, n)) => {
                outs.push(s);
                total = if total <= usize::MAX - n {
                    total + n
                } else {
                    usize::MAX
                };
            },
            Err(e) => {
                failed = Some(e);
                proof {
                    last = i as int;
                }
            },
        }
        i = i + 1;
    }
    assert(contents@.take(len as int) =~= contents@);
    match failed {
        Some(e) => Err(e),
        None => Ok((outs, total)),
    }
}

} // verus!
