//! Directives: recognising `<!-- KCL: ... -->` markup and parsing its
//! comma-separated `key=value` fields into a record.
use vstd::prelude::*;
use vstd::string::*;
use crate::KclError;
use crate::text::{
    ends_with, find_char, find_from, has_prefix, has_suffix, lemma_find_char, same_text,
    starts_with, trim, trimmed,
};

verus! {

/// What a directive asks for.
pub struct Directive {
    /// Asset name, used to build the model and poster paths.
    pub name: String,
    /// Accessible description, without surrounding whitespace.
    pub alt: String,
    /// Use the 2D fallback image instead of the 3D model.
    pub skip3d: bool,
}

/// The mathematical value of a [`Directive`].
pub struct DirectiveView {
    pub name: Seq<char>,
    pub alt: Seq<char>,
    pub skip3d: bool,
}

impl View for Directive {
    type V = DirectiveView;

    open spec fn view(&self) -> DirectiveView {
        DirectiveView { name: self.name@, alt: self.alt@, skip3d: self.skip3d }
    }
}

/// The opening delimiter that is stripped before the fields.
pub open spec fn open_delim() -> Seq<char> {
    "<!-- KCL: "@
}

/// The closing delimiter.
pub open spec fn close_delim() -> Seq<char> {
    "-->"@
}

/// The record before any field is read.
pub open spec fn empty_directive() -> DirectiveView {
    DirectiveView { name: Seq::empty(), alt: Seq::empty(), skip3d: false }
}

/// `s` cut at each `,`.
pub open spec fn split_commas(s: Seq<char>) -> Seq<Seq<char>>
    decreases s.len(),
{
    let i = find_char(s, ',');
    if 0 <= i < s.len() {
        seq![s.take(i)] + split_commas(s.skip(i + 1))
    } else {
        seq![s]
    }
}

/// Applies one `key=value` entry (cut at its first `=`) to `d`; unknown keys
/// leave it as it is.
pub open spec fn apply_field(d: DirectiveView, entry: Seq<char>) -> DirectiveView {
    let i = find_char(entry, '=');
    let key = entry.take(i);
    let value = entry.skip(i + 1);
    if key == "name"@ {
        DirectiveView { name: value, alt: d.alt, skip3d: d.skip3d }
    } else if key == "alt"@ {
        DirectiveView { name: d.name, alt: trimmed(value), skip3d: d.skip3d }
    } else if key == "skip3d"@ {
        DirectiveView { name: d.name, alt: d.alt, skip3d: value == "true"@ }
    } else {
        d
    }
}

/// Applies the entries in order, or `None` when one of them has no `=`.
pub open spec fn apply_entries(d: DirectiveView, es: Seq<Seq<char>>) -> Option<DirectiveView>
    decreases es.len(),
{
    if es.len() == 0 {
        Some(d)
    } else if find_char(es[0], '=') < 0 {
        None
    } else {
        apply_entries(apply_field(d, es[0]), es.drop_first())
    }
}

/// The record described by a directive's field list.
pub open spec fn parse_fields(s: Seq<char>) -> Option<DirectiveView> {
    apply_entries(empty_directive(), split_commas(s))
}

/// The field list of a directive, or `None` when `html` is not one whose
/// delimiters are complete.
pub open spec fn directive_body(html: Seq<char>) -> Option<Seq<char>> {
    if has_prefix(html, open_delim()) {
        let t = trimmed(html.skip(open_delim().len() as int));
        if has_suffix(t, close_delim()) {
            Some(t.take(t.len() - close_delim().len()))
        } else {
            None
        }
    } else {
        None
    }
}

/// The field list between the delimiters of a directive, or `None` when the
/// opening or closing delimiter is missing: such markup is no directive and
/// is kept as it is.
pub fn directive_payload<'a>(html: &'a str) -> (r: Option<&'a str>)
    ensures
        r is Some <==> directive_body(html@) is Some,
        r matches Some(b) ==> directive_body(html@) == Some(b@),
{
    let open = "<!-- KCL: ";
    if !starts_with(html, open) {
        return None;
    }
    let rest = html.substring_char(open.unicode_len(), html.unicode_len());
    assert(rest@ =~= html@.skip(open_delim().len() as int));
    let t = trim(rest);
    let close = "-->";
    if !ends_with(t, close) {
        return None;
    }
    let b = t.substring_char(0, t.unicode_len() - close.unicode_len());
    assert(b@ =~= t@.take(t@.len() - close_delim().len()));
    Some(b)
}

/// Applies one entry to `d`; false, with `d` unchanged, when it has no `=`.
fn apply_entry(d: &mut Directive, entry: &str) -> (ok: bool)
    ensures
        ok == (find_char(entry@, '=') >= 0),
        ok ==> final(d)@ == apply_field(old(d)@, entry@),
        !ok ==> final(d)@ == old(d)@,
{
    let n = entry.unicode_len();
    let i = find_from(entry, '=', 0);
    assert(entry@.skip(0) =~= entry@);
    if i == n {
        return false;
    }
    let key = entry.substring_char(0, i);
    let value = entry.substring_char(i + 1, n);
    assert(key@ =~= entry@.take(i as int));
    assert(value@ =~= entry@.skip(i + 1));
    if same_text(key, "name") {
        d.name = String::from_str(value);
    } else if same_text(key, "alt") {
        d.alt = String::from_str(trim(value));
    } else if same_text(key, "skip3d") {
        d.skip3d = same_text(value, "true");
    }
    true
}

/// Parses a directive's field list: entries are cut at `,`, each entry at
/// its first `=`. `name` is taken as it is, `alt` trimmed, `skip3d` is true
/// exactly when its value is `true`; other keys are ignored and a repeated
/// key keeps its last value. An entry without `=` is an error.
pub fn parse_directive(body: &str) -> (r: Result<Directive, KclError>)
    ensures
        r is Ok <==> parse_fields(body@) is Some,
        r matches Ok(d) ==> parse_fields(body@) == Some(d@),
        r matches Err(e) ==> e == KclError::MalformedField,
{
    let n = body.unicode_len();
    let mut d = Directive { name: String::new(), alt: String::new(), skip3d: false };
    let mut start: usize = 0;
    assert(body@.skip(0) =~= body@);
    loop
        invariant
            start <= n,
            n == body@.len(),
            apply_entries(d@, split_commas(body@.skip(start as int))) == parse_fields(body@),
        decreases n - start,
    {
        let j = find_from(body, ',', start);
        let entry = body.substring_char(start, j);
        let ghost rest = body@.skip(start as int);
        let ghost es = split_commas(rest);
        proof {
            if j < n {
                assert(rest.take(j - start) =~= entry@);
                assert(rest.skip(j - start + 1) =~= body@.skip(j + 1));
                assert(es.drop_first() =~= split_commas(body@.skip(j + 1)));
            } else {
                assert(rest =~= entry@);
                assert(es.drop_first() =~= Seq::<Seq<char>>::empty());
            }
            assert(es[0] == entry@);
        }
        let ghost before = d@;
        if !apply_entry(&mut d, entry) {
            return Err(KclError::MalformedField);
        }
        assert(apply_entries(before, es) == apply_entries(d@, es.drop_first()));
        if j == n {
            assert(apply_entries(d@, es.drop_first()) == Some(d@));
            return Ok(d);
        }
        start = j + 1;
    }
}

/// A lone `skip3d` field is true exactly when its value is `true`, in that
/// case; any other value, `TRUE` included, makes it false.
pub proof fn lemma_skip3d_exact(v: Seq<char>)
    requires
        forall|k: int| 0 <= k < v.len() ==> v[k] != ',',
    ensures
        parse_fields("skip3d="@ + v) == Some(
            DirectiveView { name: Seq::empty(), alt: Seq::empty(), skip3d: v == "true"@ },
        ),
{
    let key = "skip3d"@;
    let s = "skip3d="@ + v;
    reveal_strlit("skip3d=");
    reveal_strlit("skip3d");
    reveal_strlit("name");
    reveal_strlit("alt");
    assert forall|k: int| 0 <= k < s.len() implies s[k] != ',' by {
        if k >= 7 {
            assert(s[k] == v[k - 7]);
        }
    }
    lemma_find_char(s, ',', s.len() as int);
    assert(split_commas(s) == seq![s]);
    lemma_find_char(s, '=', 6);
    assert(s.take(6) =~= key);
    assert(s.skip(7) =~= v);
    assert(key.len() != "name"@.len());
    assert(key.len() != "alt"@.len());
    let d = apply_field(empty_directive(), s);
    assert(d.skip3d == (v == "true"@));
    assert(seq![s].drop_first() =~= Seq::<Seq<char>>::empty());
    assert(apply_entries(d, Seq::empty()) == Some(d));
    assert(apply_entries(empty_directive(), seq![s]) == Some(d));
}

} // verus!
