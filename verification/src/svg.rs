//! The evaluation-harness SVG reader and the comparison-figure layout.
//!
//! The harness writes each comparison as one SVG with a `<text>` label and a
//! `<path>` outline per panel, both in document order. The reader pairs them
//! up: a label's `x` attribute (the panel's advance origin), its trimmed
//! text, the path's `d` data and the role its `fill` colour stands for.
//! Parsing the numbers and the path data is left to the caller.

use crate::powers::{decimal, decimal_u64};
use crate::text::{
    chars_of, concat, find_from, find_in, lemma_find_from_bounds, opt_view, string_of, trimmed,
    trimmed_string,
};
use vstd::prelude::*;
use vstd::string::*;

verus! {

/// What a panel shows, read from its fill colour.
#[derive(Clone, Copy, Debug, PartialEq, Eq, Structural)]
pub enum Role {
    /// Ground truth (`#ccc`).
    Reference,
    /// The seed handed to the model (`#000`).
    Given,
    /// The model's output (`#ff4e00`).
    Model,
}

/// ASCII lowercase of one character.
pub open spec fn ascii_lower(c: char) -> char {
    if 'A' <= c <= 'Z' {
        ((c as u32) + 32) as char
    } else {
        c
    }
}

/// `str::to_ascii_lowercase`.
pub open spec fn ascii_lowercase(s: Seq<char>) -> Seq<char> {
    s.map_values(|c: char| ascii_lower(c))
}

/// Whether `pat` occurs in `s`.
pub open spec fn contains_text(s: Seq<char>, pat: Seq<char>) -> bool {
    find_from(s, 0, pat) is Some
}

/// The role a fill colour stands for: the model's orange-red, black for the
/// seed, anything else for the reference.
pub open spec fn fill_role(fill: Seq<char>) -> Role {
    let f = ascii_lowercase(fill);
    if contains_text(f, "ff4e00"@) || contains_text(f, "ff4535"@) {
        Role::Model
    } else if f == "#000"@ || f == "#000000"@ || f == "black"@ {
        Role::Given
    } else {
        Role::Reference
    }
}

fn lowercase_chars(s: &str) -> (v: Vec<char>)
    ensures
        v@ == ascii_lowercase(s@),
{
    let cs = chars_of(s);
    let mut v: Vec<char> = Vec::new();
    let mut i: usize = 0;
    while i < cs.len()
        invariant
            cs@ == s@,
            i <= cs@.len(),
            v@ == ascii_lowercase(s@).take(i as int),
        decreases cs@.len() - i,
    {
        let c = cs[i];
        let l = if 'A' <= c && c <= 'Z' {
            ((c as u8) + 32) as char
        } else {
            c
        };
        assert(l == ascii_lower(c));
        v.push(l);
        assert(v@ =~= ascii_lowercase(s@).take(i + 1));
        i = i + 1;
    }
    assert(v@ =~= ascii_lowercase(s@));
    v
}

fn same_chars(a: &Vec<char>, b: &Vec<char>) -> (r: bool)
    ensures
        r == (a@ == b@),
{
    if a.len() != b.len() {
        return false;
    }
    let mut i: usize = 0;
    while i < a.len()
        invariant
            a@.len() == b@.len(),
            i <= a@.len(),
            forall|j: int| 0 <= j < i ==> a@[j] == b@[j],
        decreases a@.len() - i,
    {
        if a[i] != b[i] {
            return false;
        }
        i = i + 1;
    }
    assert(a@ =~= b@);
    true
}

impl Role {
    /// The role of a panel with this fill colour.
    pub fn from_fill(fill: &str) -> (r: Role)
        ensures
            r == fill_role(fill@),
    {
        let f = lowercase_chars(fill);
        let model = chars_of("ff4e00");
        let model_alt = chars_of("ff4535");
        if find_in(&f, 0, &model).is_some() || find_in(&f, 0, &model_alt).is_some() {
            return Role::Model;
        }
        let black3 = chars_of("#000");
        let black6 = chars_of("#000000");
        let black = chars_of("black");
        if same_chars(&f, &black3) || same_chars(&f, &black6) || same_chars(&f, &black) {
            Role::Given
        } else {
            Role::Reference
        }
    }
}

/// The value of attribute `key` in the tag text `tag`: what stands between
/// the first `key="` and the next `"`.
pub open spec fn attr_value(tag: Seq<char>, key: Seq<char>) -> Option<Seq<char>> {
    let pat = key + "=\""@;
    match find_from(tag, 0, pat) {
        None => None,
        Some(k) => match find_from(tag, k + pat.len(), "\""@) {
            None => None,
            Some(j) => Some(tag.subrange((k + pat.len()) as int, j as int)),
        },
    }
}

fn attr_chars(tag: &Vec<char>, key: &str) -> (r: Option<String>)
    ensures
        opt_view(r) == attr_value(tag@, key@),
{
    proof {
        reveal_strlit("=\"");
        reveal_strlit("\"");
    }
    let mut pat = chars_of(key);
    let tail = chars_of("=\"");
    let quote = chars_of("\"");
    pat.push(tail[0]);
    pat.push(tail[1]);
    assert(pat@ =~= key@ + "=\""@);
    match find_in(tag, 0, &pat) {
        None => None,
        Some(k) => {
            let tag_len = tag.len();
            assert(k + pat@.len() <= tag_len);
            let i = k + pat.len();
            match find_in(tag, i, &quote) {
                None => None,
                Some(j) => Some(string_of(tag, i, j)),
            }
        },
    }
}

/// The value of attribute `key` in the tag text `tag`.
pub fn attr(tag: &str, key: &str) -> (r: Option<String>)
    ensures
        opt_view(r) == attr_value(tag@, key@),
{
    let t = chars_of(tag);
    attr_chars(&t, key)
}

/// Why a harness SVG could not be read.
#[derive(Clone, Copy, Debug, PartialEq, Eq, Structural)]
pub enum SvgError {
    /// A `<text` tag has no closing `>`.
    UnterminatedText,
    /// A `<text>` element has no `</text>`.
    MissingTextEnd,
    /// A `<path` element has no `/>`.
    UnterminatedPath,
    /// A `<path>` element has no `d` attribute.
    PathWithoutD,
    /// The numbers of labels and paths differ.
    CountMismatch { labels: usize, paths: usize },
}

/// `done` in front of what `rest` gathered, or the error of `rest`.
pub open spec fn prepend<T>(done: Seq<T>, rest: Result<Seq<T>, SvgError>) -> Result<Seq<T>, SvgError> {
    match rest {
        Ok(xs) => Ok(done + xs),
        Err(e) => Err(e),
    }
}

/// The label element whose `<text` starts at `start`: its `x` attribute
/// and its text.
pub open spec fn label_at(t: Seq<char>, start: nat) -> Result<(Option<Seq<char>>, Seq<char>), SvgError> {
    match find_from(t, start, ">"@) {
        None => Err(SvgError::UnterminatedText),
        Some(g) => match find_from(t, g + 1, "</text>"@) {
            None => Err(SvgError::MissingTextEnd),
            Some(e) => Ok((attr_value(t.subrange(start as int, g as int), "x"@), t.subrange((g + 1) as int, e as int))),
        },
    }
}

/// The path element whose `<path` starts at `start`: its `d` data and its
/// fill (empty when it has none).
pub open spec fn path_at(t: Seq<char>, start: nat) -> Result<(Seq<char>, Seq<char>), SvgError> {
    match find_from(t, start, "/>"@) {
        None => Err(SvgError::UnterminatedPath),
        Some(e) => {
            let elem = t.subrange(start as int, e as int);
            match attr_value(elem, "d"@) {
                None => Err(SvgError::PathWithoutD),
                Some(d) => Ok(
                    (
                        d,
                        match attr_value(elem, "fill"@) {
                            Some(f) => f,
                            None => Seq::empty(),
                        },
                    ),
                ),
            }
        },
    }
}

/// The labels of every `<text` (the tag `open`) from `i` on, in document
/// order, or the first error.
pub open spec fn labels_from(t: Seq<char>, i: nat, open: Seq<char>) -> Result<
    Seq<(Option<Seq<char>>, Seq<char>)>,
    SvgError,
>
    decreases t.len() + 1 - i,
{
    if open.len() == 0 {
        Ok(Seq::empty())
    } else {
        match find_from(t, i, open) {
            None => Ok(Seq::empty()),
            Some(k) => {
                proof {
                    lemma_find_from_bounds(t, i, open);
                }
                match label_at(t, k) {
                    Err(e) => Err(e),
                    Ok(l) => prepend(seq![l], labels_from(t, k + open.len(), open)),
                }
            },
        }
    }
}

/// The paths of every `<path` (the tag `open`) from `i` on, in document
/// order, or the first error.
pub open spec fn paths_from(t: Seq<char>, i: nat, open: Seq<char>) -> Result<
    Seq<(Seq<char>, Seq<char>)>,
    SvgError,
>
    decreases t.len() + 1 - i,
{
    if open.len() == 0 {
        Ok(Seq::empty())
    } else {
        match find_from(t, i, open) {
            None => Ok(Seq::empty()),
            Some(k) => {
                proof {
                    lemma_find_from_bounds(t, i, open);
                }
                match path_at(t, k) {
                    Err(e) => Err(e),
                    Ok(p) => prepend(seq![p], paths_from(t, k + open.len(), open)),
                }
            },
        }
    }
}

/// One panel as plain values: label `x`, trimmed label, path data, role.
pub open spec fn panel_of(
    l: (Option<Seq<char>>, Seq<char>),
    p: (Seq<char>, Seq<char>),
) -> (Option<Seq<char>>, Seq<char>, Seq<char>, Role) {
    (l.0, trimmed(l.1), p.0, fill_role(p.1))
}

/// What reading the harness SVG `t` gives: the panels, label `i` paired with
/// path `i`, or the first error.
pub open spec fn svg_panels(t: Seq<char>) -> Result<
    Seq<(Option<Seq<char>>, Seq<char>, Seq<char>, Role)>,
    SvgError,
> {
    match labels_from(t, 0, "<text"@) {
        Err(e) => Err(e),
        Ok(ls) => match paths_from(t, 0, "<path"@) {
            Err(e) => Err(e),
            Ok(ps) => if ls.len() != ps.len() {
                Err(SvgError::CountMismatch { labels: ls.len() as usize, paths: ps.len() as usize })
            } else {
                Ok(Seq::new(ls.len(), |i: int| panel_of(ls[i], ps[i])))
            },
        },
    }
}

/// One panel of a harness SVG, its numbers and path data still text.
#[derive(Debug)]
pub struct SvgPanel {
    /// The label's `x` attribute: the panel's advance origin.
    pub x: Option<String>,
    pub label: String,
    /// The path's `d` data, in SVG coordinates.
    pub d: String,
    pub role: Role,
}

/// A panel as plain values.
pub open spec fn svg_panel_view(p: SvgPanel) -> (Option<Seq<char>>, Seq<char>, Seq<char>, Role) {
    (opt_view(p.x), p.label@, p.d@, p.role)
}

/// The labels of `t`: each label's `x` attribute and the span of its text.
fn scan_labels(t: &Vec<char>) -> (r: Result<(Vec<Option<String>>, Vec<(usize, usize)>), SvgError>)
    ensures
        match r {
            Ok((xs, spans)) => labels_from(t@, 0, "<text"@) matches Ok(ls) && xs@.len() == ls.len()
                && spans@.len() == ls.len() && forall|q: int|
                #![trigger xs@[q]]
                #![trigger spans@[q]]
                0 <= q < ls.len() ==> {
                    &&& opt_view(#[trigger] xs@[q]) == ls[q].0
                    &&& spans@[q].0 <= spans@[q].1 <= t@.len()
                    &&& t@.subrange(spans@[q].0 as int, spans@[q].1 as int) == ls[q].1
                },
            Err(e) => labels_from(t@, 0, "<text"@) == Err::<Seq<(Option<Seq<char>>, Seq<char>)>, SvgError>(e),
        },
{
    let n = t.len();
    let open = chars_of("<text");
    let gt = chars_of(">");
    let close = chars_of("</text>");
    proof {
        reveal_strlit("<text");
        reveal_strlit(">");
    }
    let mut xs: Vec<Option<String>> = Vec::new();
    let mut spans: Vec<(usize, usize)> = Vec::new();
    let ghost mut labels: Seq<(Option<Seq<char>>, Seq<char>)> = Seq::empty();
    let mut pos: usize = 0;
    let mut next = find_in(t, 0, &open);
    while next.is_some()
        invariant
            n == t@.len(),
            pos <= n,
            open@ == "<text"@,
            gt@ == ">"@,
            close@ == "</text>"@,
            open@.len() == 5,
            gt@.len() == 1,
            next is None <==> find_from(t@, pos as nat, open@) is None,
            next matches Some(k) ==> find_from(t@, pos as nat, open@) == Some(k as nat) && k + 5 <= n,
            labels_from(t@, 0, open@) == prepend(labels, labels_from(t@, pos as nat, open@)),
            xs@.len() == labels.len(),
            spans@.len() == labels.len(),
            forall|q: int|
                0 <= q < labels.len() ==> {
                    &&& opt_view(#[trigger] xs@[q]) == labels[q].0
                    &&& spans@[q].0 <= spans@[q].1 <= n
                    &&& t@.subrange(spans@[q].0 as int, spans@[q].1 as int) == labels[q].1
                },
        decreases n + 1 - pos,
    {
        let k = next.unwrap();
        proof {
            lemma_find_from_bounds(t@, pos as nat, open@);
        }
        assert(find_from(t@, pos as nat, open@) == Some(k as nat));
        let g = match find_in(t, k, &gt) {
            None => {
                assert(label_at(t@, k as nat) == Err::<(Option<Seq<char>>, Seq<char>), SvgError>(
                    SvgError::UnterminatedText,
                ));
                assert(labels_from(t@, pos as nat, open@) == Err::<
                    Seq<(Option<Seq<char>>, Seq<char>)>,
                    SvgError,
                >(SvgError::UnterminatedText));
                return Err(SvgError::UnterminatedText);
            },
            Some(g) => g,
        };
        let e = match find_in(t, g + 1, &close) {
            None => {
                assert(label_at(t@, k as nat) == Err::<(Option<Seq<char>>, Seq<char>), SvgError>(
                    SvgError::MissingTextEnd,
                ));
                assert(labels_from(t@, pos as nat, open@) == Err::<
                    Seq<(Option<Seq<char>>, Seq<char>)>,
                    SvgError,
                >(SvgError::MissingTextEnd));
                return Err(SvgError::MissingTextEnd);
            },
            Some(e) => e,
        };
        let tag = slice_chars(t, k, g);
        let x = attr_chars(&tag, "x");
        let ghost l = (opt_view(x), t@.subrange((g + 1) as int, e as int));
        proof {
            assert(label_at(t@, k as nat) == Ok::<_, SvgError>(l));
            let rest = labels_from(t@, (k + 5) as nat, open@);
            assert(labels_from(t@, pos as nat, open@) == prepend(seq![l], rest));
            match rest {
                Ok(ys) => {
                    assert(labels + (seq![l] + ys) =~= labels.push(l) + ys);
                },
                Err(_) => {},
            }
        }
        xs.push(x);
        spans.push((g + 1, e));
        proof {
            labels = labels.push(l);
        }
        pos = k + 5;
        next = find_in(t, pos, &open);
    }
    assert(labels_from(t@, 0, open@) == Ok::<_, SvgError>(labels)) by {
        assert(labels + Seq::empty() =~= labels);
    }
    Ok((xs, spans))
}

/// The paths of `t`: each path's `d` data and fill.
fn scan_paths(t: &Vec<char>) -> (r: Result<(Vec<String>, Vec<String>), SvgError>)
    ensures
        match r {
            Ok((ds, fills)) => paths_from(t@, 0, "<path"@) matches Ok(ps) && ds@.len() == ps.len()
                && fills@.len() == ps.len() && forall|q: int|
                #![trigger ds@[q]]
                #![trigger fills@[q]]
                0 <= q < ps.len() ==> ds@[q]@ == ps[q].0 && fills@[q]@ == ps[q].1,
            Err(e) => paths_from(t@, 0, "<path"@) == Err::<Seq<(Seq<char>, Seq<char>)>, SvgError>(e),
        },
{
    let n = t.len();
    let open = chars_of("<path");
    let close = chars_of("/>");
    proof {
        reveal_strlit("<path");
    }
    let mut ds: Vec<String> = Vec::new();
    let mut fills: Vec<String> = Vec::new();
    let ghost mut paths: Seq<(Seq<char>, Seq<char>)> = Seq::empty();
    let mut pos: usize = 0;
    let mut next = find_in(t, 0, &open);
    while next.is_some()
        invariant
            n == t@.len(),
            pos <= n,
            open@ == "<path"@,
            close@ == "/>"@,
            open@.len() == 5,
            next is None <==> find_from(t@, pos as nat, open@) is None,
            next matches Some(k) ==> find_from(t@, pos as nat, open@) == Some(k as nat) && k + 5 <= n,
            paths_from(t@, 0, open@) == prepend(paths, paths_from(t@, pos as nat, open@)),
            ds@.len() == paths.len(),
            fills@.len() == paths.len(),
            forall|q: int| 0 <= q < paths.len() ==> (#[trigger] ds@[q])@ == paths[q].0,
            forall|q: int| 0 <= q < paths.len() ==> (#[trigger] fills@[q])@ == paths[q].1,
        decreases n + 1 - pos,
    {
        let k = next.unwrap();
        proof {
            lemma_find_from_bounds(t@, pos as nat, open@);
        }
        assert(find_from(t@, pos as nat, open@) == Some(k as nat));
        let e = match find_in(t, k, &close) {
            None => {
                assert(path_at(t@, k as nat) == Err::<(Seq<char>, Seq<char>), SvgError>(
                    SvgError::UnterminatedPath,
                ));
                assert(paths_from(t@, pos as nat, open@) == Err::<
                    Seq<(Seq<char>, Seq<char>)>,
                    SvgError,
                >(SvgError::UnterminatedPath));
                return Err(SvgError::UnterminatedPath);
            },
            Some(e) => e,
        };
        let elem = slice_chars(t, k, e);
        let d = match attr_chars(&elem, "d") {
            None => {
                assert(paths_from(t@, pos as nat, open@) == Err::<
                    Seq<(Seq<char>, Seq<char>)>,
                    SvgError,
                >(SvgError::PathWithoutD));
                return Err(SvgError::PathWithoutD);
            },
            Some(d) => d,
        };
        let fill = match attr_chars(&elem, "fill") {
            None => String::new(),
            Some(f) => f,
        };
        let ghost p = (d@, fill@);
        proof {
            assert(path_at(t@, k as nat) == Ok::<_, SvgError>(p));
            let rest = paths_from(t@, (k + 5) as nat, open@);
            assert(paths_from(t@, pos as nat, open@) == prepend(seq![p], rest));
            match rest {
                Ok(ys) => {
                    assert(paths + (seq![p] + ys) =~= paths.push(p) + ys);
                },
                Err(_) => {},
            }
        }
        ds.push(d);
        fills.push(fill);
        proof {
            paths = paths.push(p);
        }
        pos = k + 5;
        next = find_in(t, pos, &open);
    }
    assert(paths_from(t@, 0, open@) == Ok::<_, SvgError>(paths)) by {
        assert(paths + Seq::empty() =~= paths);
    }
    Ok((ds, fills))
}

/// Read a harness SVG into its panels: label `i` with path `i`, both in
/// document order.
pub fn parse_svg(svg: &str) -> (r: Result<Vec<SvgPanel>, SvgError>)
    ensures
        match r {
            Ok(panels) => svg_panels(svg@) == Ok::<_, SvgError>(
                panels@.map_values(|p: SvgPanel| svg_panel_view(p)),
            ),
            Err(e) => svg_panels(svg@) == Err::<Seq<(Option<Seq<char>>, Seq<char>, Seq<char>, Role)>, SvgError>(e),
        },
{
    let t = chars_of(svg);
    let n = t.len();
    let (mut xs, spans) = match scan_labels(&t) {
        Err(e) => return Err(e),
        Ok(found) => found,
    };
    let (mut ds, fills) = match scan_paths(&t) {
        Err(e) => return Err(e),
        Ok(found) => found,
    };
    let ghost labels = labels_from(t@, 0, "<text"@)->Ok_0;
    let ghost paths = paths_from(t@, 0, "<path"@)->Ok_0;
    if xs.len() != ds.len() {
        return Err(SvgError::CountMismatch { labels: xs.len(), paths: ds.len() });
    }
    let m = spans.len();
    let mut i: usize = m;
    // taken from the back, so each label and path moves out once
    let mut rev: Vec<SvgPanel> = Vec::new();
    while i > 0
        invariant
            t@ == svg@,
            n == t@.len(),
            labels_from(t@, 0, "<text"@) == Ok::<_, SvgError>(labels),
            paths_from(t@, 0, "<path"@) == Ok::<_, SvgError>(paths),
            i <= m == labels.len() == paths.len(),
            xs@.len() == i,
            ds@.len() == i,
            spans@.len() == m,
            fills@.len() == m,
            forall|q: int|
                0 <= q < i ==> opt_view(#[trigger] xs@[q]) == labels[q].0 && ds@[q]@ == paths[q].0,
            forall|q: int|
                0 <= q < m ==> {
                    &&& (#[trigger] spans@[q]).0 <= spans@[q].1 <= n
                    &&& t@.subrange(spans@[q].0 as int, spans@[q].1 as int) == labels[q].1
                    &&& fills@[q]@ == paths[q].1
                },
            rev@.len() == m - i,
            forall|q: int|
                0 <= q < m - i ==> svg_panel_view(#[trigger] rev@[q]) == panel_of(
                    labels[m - 1 - q],
                    paths[m - 1 - q],
                ),
        decreases i,
    {
        i = i - 1;
        let x = xs.pop().unwrap();
        let d = ds.pop().unwrap();
        let (lo, hi) = spans[i];
        let label = trimmed_string(&t, lo, hi);
        let role = Role::from_fill(fills[i].as_str());
        rev.push(SvgPanel { x, label, d, role });
    }
    let mut panels: Vec<SvgPanel> = Vec::new();
    while rev.len() > 0
        invariant
            m == labels.len() == paths.len(),
            rev@.len() + panels@.len() == m,
            forall|q: int|
                0 <= q < rev@.len() ==> svg_panel_view(#[trigger] rev@[q]) == panel_of(
                    labels[m - 1 - q],
                    paths[m - 1 - q],
                ),
            forall|q: int|
                0 <= q < panels@.len() ==> svg_panel_view(#[trigger] panels@[q]) == panel_of(
                    labels[q],
                    paths[q],
                ),
        decreases rev@.len(),
    {
        let p = rev.pop().unwrap();
        panels.push(p);
    }
    assert(panels@.map_values(|p: SvgPanel| svg_panel_view(p)) =~= Seq::new(
        labels.len(),
        |q: int| panel_of(labels[q], paths[q]),
    ));
    Ok(panels)
}

/// The horizontal metric rules of a comparison figure, in font units: the
/// dashed overshoot lines (and the cap overshoot when the figure shows the
/// cap height) and the solid x-height, baseline, cap and descender lines.
pub open spec fn figure_rules(cap: bool, descender: bool) -> (Seq<i64>, Seq<i64>) {
    (
        seq![-16i64] + if cap {
            seq![784i64]
        } else {
            Seq::empty()
        },
        seq![576i64, 0i64] + (if cap {
            seq![768i64]
        } else {
            Seq::empty()
        }) + if descender {
            seq![-256i64]
        } else {
            Seq::empty()
        },
    )
}

/// The dashed and the solid metric rules of a comparison figure.
pub fn figure_metric_rules(cap: bool, descender: bool) -> (r: (Vec<i64>, Vec<i64>))
    ensures
        (r.0@, r.1@) == figure_rules(cap, descender),
{
    let mut dashed: Vec<i64> = vec![-16];
    if cap {
        dashed.push(784);
    }
    let mut solid: Vec<i64> = vec![576, 0];
    if cap {
        solid.push(768);
    }
    if descender {
        solid.push(-256);
    }
    assert(dashed@ =~= figure_rules(cap, descender).0);
    assert(solid@ =~= figure_rules(cap, descender).1);
    (dashed, solid)
}

/// The metric tags docked at the left edge: text, line in font units, and
/// whether the tag sits above its line.
pub open spec fn figure_tags(cap: bool, descender: bool) -> Seq<(Seq<char>, i64, bool)> {
    (if cap {
        seq![("cap 768"@, 768i64, false)]
    } else {
        Seq::empty()
    }) + seq![("x-height 576"@, 576i64, true), ("baseline 0"@, 0i64, true)] + if descender {
        seq![("descender -256"@, -256i64, true)]
    } else {
        Seq::empty()
    }
}

/// The metric tags of a comparison figure, top to bottom.
pub fn figure_metric_tags(cap: bool, descender: bool) -> (tags: Vec<(&'static str, i64, bool)>)
    ensures
        tags@.map_values(|t: (&'static str, i64, bool)| (t.0@, t.1, t.2)) == figure_tags(
            cap,
            descender,
        ),
{
    let mut tags: Vec<(&'static str, i64, bool)> = Vec::new();
    if cap {
        tags.push(("cap 768", 768, false));
    }
    tags.push(("x-height 576", 576, true));
    tags.push(("baseline 0", 0, true));
    if descender {
        tags.push(("descender -256", -256, true));
    }
    assert(tags@.map_values(|t: (&'static str, i64, bool)| (t.0@, t.1, t.2)) =~= figure_tags(
        cap,
        descender,
    ));
    tags
}

/// `n` with at least two digits, as `{:02}` writes it.
pub open spec fn two_digits(n: nat) -> Seq<char> {
    if n < 10 {
        seq!['0'] + decimal(n)
    } else {
        decimal(n)
    }
}

/// The caption above panel `i`: its number from 1, two digits, and label.
pub fn panel_caption(i: usize, label: &str) -> (s: String)
    requires
        i < usize::MAX,
    ensures
        s@ == two_digits((i + 1) as nat) + " "@ + label@,
{
    let number = decimal_u64((i + 1) as u64);
    let mut s = if i + 1 < 10 {
        proof {
            reveal_strlit("0");
        }
        concat("0", number.as_str())
    } else {
        number
    };
    s.append(" ");
    s.append(label);
    s
}

/// A copy of `chars[lo..hi]`.
fn slice_chars(chars: &Vec<char>, lo: usize, hi: usize) -> (v: Vec<char>)
    requires
        lo <= hi <= chars@.len(),
    ensures
        v@ == chars@.subrange(lo as int, hi as int),
{
    let mut v: Vec<char> = Vec::new();
    let mut i = lo;
    while i < hi
        invariant
            lo <= i <= hi <= chars@.len(),
            v@ == chars@.subrange(lo as int, i as int),
        decreases hi - i,
    {
        v.push(chars[i]);
        assert(v@ =~= chars@.subrange(lo as int, i + 1));
        i = i + 1;
    }
    v
}

/// The role of a fill ignores ASCII case: a fill and its lowercase form
/// (so `#FF4E00` and `#ff4e00`, or `BLACK` and `black`) stand for the same
/// role.
pub proof fn lemma_fill_role_ignores_case(fill: Seq<char>)
    ensures
        fill_role(ascii_lowercase(fill)) == fill_role(fill),
{
    assert forall|i: int| 0 <= i < fill.len() implies #[trigger] ascii_lower(ascii_lower(fill[i]))
        == ascii_lower(fill[i]) by {
        let c = fill[i];
        if 'A' <= c <= 'Z' {
            assert('a' <= ascii_lower(c) <= 'z');
        }
    }
    assert(ascii_lowercase(ascii_lowercase(fill)) =~= ascii_lowercase(fill));
}

} // verus!
