//! Placeholder values, styled text spans and their rendering to markup, and
//! the bookkeeping of which placeholders a render used.

use vstd::prelude::*;

use crate::strutil::{chars_to_string, spec_decimal, str_to_chars, u32_to_decimal};

verus! {

/// The placeholders a fragment declares.
pub type ExpectedPlaceholders = Vec<String>;

/// A flat mapping from placeholder name to substitution text, in
/// substitution order. Its invariant is `unique_keys`: at most one entry
/// per name.
pub type PlaceholderValueMap = Vec<(String, String)>;

/// A mapping from placeholder name to a text placeholder value. Its
/// invariant is `unique_text_keys`: at most one entry per name.
pub type TextPlaceholderValueMap = Vec<(String, TextPlaceholderValue)>;

/// The invariant a placeholder value map keeps: no name maps twice.
pub open spec fn unique_keys(m: Seq<(String, String)>) -> bool {
    forall|i: int, j: int| #![trigger m[i], m[j]] 0 <= i < j < m.len() ==> m[i].0@ != m[j].0@
}

/// The invariant a text placeholder value map keeps: no name maps twice.
pub open spec fn unique_text_keys(m: Seq<(String, TextPlaceholderValue)>) -> bool {
    forall|i: int, j: int| #![trigger m[i], m[j]] 0 <= i < j < m.len() ==> m[i].0@ != m[j].0@
}

/// How one character is escaped inside the textual content of a span:
/// `&`, `>` and `<` become entities, everything else stands as it is.
pub open spec fn spec_escape_char(c: char) -> Seq<char> {
    if c == '&' {
        seq!['&', 'a', 'm', 'p', ';']
    } else if c == '>' {
        seq!['&', 'g', 't', ';']
    } else if c == '<' {
        seq!['&', 'l', 't', ';']
    } else {
        seq![c]
    }
}

/// Escape a whole text, character by character. Escaping every character in
/// one pass is the same as first replacing `&`, then `>`, then `<`, which
/// `lemma_escape_matches_sequential_replace` below proves.
pub open spec fn spec_escape(s: Seq<char>) -> Seq<char>
    decreases s.len(),
{
    if s.len() == 0 {
        Seq::empty()
    } else {
        spec_escape_char(s[0]) + spec_escape(s.drop_first())
    }
}

/// Escaping leaves a text without `&`, `<` or `>` unchanged; in particular
/// it is idempotent on such text.
pub proof fn lemma_escape_identity_on_safe(s: Seq<char>)
    requires
        forall|i: int| 0 <= i < s.len() ==> s[i] != '&' && s[i] != '<' && s[i] != '>',
    ensures
        spec_escape(s) == s,
    decreases s.len(),
{
    if s.len() == 0 {
        assert(spec_escape(s) =~= s);
    } else {
        assert(forall|i: int|
            0 <= i < s.drop_first().len() ==> s.drop_first()[i] != '&' && s.drop_first()[i] != '<'
                && s.drop_first()[i] != '>');
        lemma_escape_identity_on_safe(s.drop_first());
        assert(spec_escape(s) =~= s);
    }
}

/// A text with one character replaced wherever it occurs: the image of
/// replacing the single-character pattern `c` by `sub`.
spec fn spec_charmap(s: Seq<char>, c: char, sub: Seq<char>) -> Seq<char>
    decreases s.len(),
{
    if s.len() == 0 {
        Seq::empty()
    } else {
        (if s[0] == c {
            sub
        } else {
            seq![s[0]]
        }) + spec_charmap(s.drop_first(), c, sub)
    }
}

proof fn lemma_replace_single_char(s: Seq<char>, c: char, sub: Seq<char>)
    ensures
        crate::strutil::spec_replace_all(s, seq![c], sub) == spec_charmap(s, c, sub),
    decreases s.len(),
{
    let pat = seq![c];
    if s.len() == 0 {
        assert(crate::strutil::spec_replace_all(s, pat, sub) =~= spec_charmap(s, c, sub));
    } else {
        lemma_replace_single_char(s.drop_first(), c, sub);
        assert(s.subrange(0, 1) =~= seq![s[0]]);
        assert(s.skip(1) =~= s.drop_first());
        if s[0] == c {
            assert(s.subrange(0, 1) == pat);
        } else {
            assert(s.subrange(0, 1) != pat) by {
                assert(s.subrange(0, 1)[0] != pat[0]);
            }
        }
    }
}

proof fn lemma_charmap_concat(a: Seq<char>, b: Seq<char>, c: char, sub: Seq<char>)
    ensures
        spec_charmap(a + b, c, sub) == spec_charmap(a, c, sub) + spec_charmap(b, c, sub),
    decreases a.len(),
{
    if a.len() == 0 {
        assert(a + b =~= b);
        assert(spec_charmap(a, c, sub) + spec_charmap(b, c, sub) =~= spec_charmap(b, c, sub));
    } else {
        lemma_charmap_concat(a.drop_first(), b, c, sub);
        assert((a + b).drop_first() =~= a.drop_first() + b);
        assert((a + b)[0] == a[0]);
        assert((if a[0] == c {
            sub
        } else {
            seq![a[0]]
        }) + (spec_charmap(a.drop_first(), c, sub) + spec_charmap(b, c, sub)) =~= ((if a[0] == c {
            sub
        } else {
            seq![a[0]]
        }) + spec_charmap(a.drop_first(), c, sub)) + spec_charmap(b, c, sub));
    }
}

proof fn lemma_charmap_absent(a: Seq<char>, c: char, sub: Seq<char>)
    requires
        forall|i: int| 0 <= i < a.len() ==> a[i] != c,
    ensures
        spec_charmap(a, c, sub) == a,
    decreases a.len(),
{
    if a.len() == 0 {
        assert(spec_charmap(a, c, sub) =~= a);
    } else {
        assert(forall|i: int| 0 <= i < a.drop_first().len() ==> a.drop_first()[i] != c);
        lemma_charmap_absent(a.drop_first(), c, sub);
        assert(spec_charmap(a, c, sub) =~= a);
    }
}

proof fn lemma_charmap_single(h: char, c: char, sub: Seq<char>)
    ensures
        spec_charmap(seq![h], c, sub) == (if h == c {
            sub
        } else {
            seq![h]
        }),
{
    assert(seq![h].drop_first() =~= Seq::<char>::empty());
    assert(spec_charmap(Seq::<char>::empty(), c, sub) =~= Seq::<char>::empty());
    assert(spec_charmap(seq![h], c, sub) =~= (if h == c {
        sub
    } else {
        seq![h]
    }));
}

proof fn lemma_escape_char_staged(h: char)
    ensures
        spec_charmap(
            spec_charmap(spec_charmap(seq![h], '&', seq!['&', 'a', 'm', 'p', ';']), '>', seq!['&', 'g', 't', ';']),
            '<',
            seq!['&', 'l', 't', ';'],
        ) == spec_escape_char(h),
{
    let amp = seq!['&', 'a', 'm', 'p', ';'];
    let gt = seq!['&', 'g', 't', ';'];
    let lt = seq!['&', 'l', 't', ';'];
    lemma_charmap_single(h, '&', amp);
    if h == '&' {
        assert(forall|i: int| 0 <= i < amp.len() ==> amp[i] != '>');
        lemma_charmap_absent(amp, '>', gt);
        assert(forall|i: int| 0 <= i < amp.len() ==> amp[i] != '<');
        lemma_charmap_absent(amp, '<', lt);
    } else {
        lemma_charmap_single(h, '>', gt);
        if h == '>' {
            assert(forall|i: int| 0 <= i < gt.len() ==> gt[i] != '<');
            lemma_charmap_absent(gt, '<', lt);
        } else {
            lemma_charmap_single(h, '<', lt);
        }
    }
}

/// Escaping character by character is the same as replacing every `&`
/// first, then every `>`, then every `<`, each by its entity, across the
/// whole text: the ampersands the entities introduce are never replaced
/// again.
pub proof fn lemma_escape_matches_sequential_replace(s: Seq<char>)
    ensures
        spec_escape(s) == crate::strutil::spec_replace_all(
            crate::strutil::spec_replace_all(
                crate::strutil::spec_replace_all(s, seq!['&'], seq!['&', 'a', 'm', 'p', ';']),
                seq!['>'],
                seq!['&', 'g', 't', ';'],
            ),
            seq!['<'],
            seq!['&', 'l', 't', ';'],
        ),
    decreases s.len(),
{
    let amp = seq!['&', 'a', 'm', 'p', ';'];
    let gt = seq!['&', 'g', 't', ';'];
    let lt = seq!['&', 'l', 't', ';'];
    lemma_replace_single_char(s, '&', amp);
    lemma_replace_single_char(crate::strutil::spec_replace_all(s, seq!['&'], amp), '>', gt);
    lemma_replace_single_char(
        crate::strutil::spec_replace_all(
            crate::strutil::spec_replace_all(s, seq!['&'], amp),
            seq!['>'],
            gt,
        ),
        '<',
        lt,
    );
    lemma_escape_staged(s);
}

proof fn lemma_escape_staged(s: Seq<char>)
    ensures
        spec_escape(s) == spec_charmap(
            spec_charmap(spec_charmap(s, '&', seq!['&', 'a', 'm', 'p', ';']), '>', seq!['&', 'g', 't', ';']),
            '<',
            seq!['&', 'l', 't', ';'],
        ),
    decreases s.len(),
{
    let amp = seq!['&', 'a', 'm', 'p', ';'];
    let gt = seq!['&', 'g', 't', ';'];
    let lt = seq!['&', 'l', 't', ';'];
    if s.len() == 0 {
        assert(spec_charmap(s, '&', amp) =~= Seq::<char>::empty());
        assert(spec_escape(s) =~= spec_charmap(
            spec_charmap(spec_charmap(s, '&', amp), '>', gt),
            '<',
            lt,
        ));
    } else {
        let h = s[0];
        let t = s.drop_first();
        lemma_escape_staged(t);
        lemma_escape_char_staged(h);
        // Stage one unfolds at the head; the later stages distribute over
        // the concatenation of the head's image and the tail's image.
        assert(spec_charmap(s, '&', amp) == (if h == '&' {
            amp
        } else {
            seq![h]
        }) + spec_charmap(t, '&', amp));
        lemma_charmap_single(h, '&', amp);
        assert(spec_charmap(s, '&', amp) == spec_charmap(seq![h], '&', amp) + spec_charmap(
            t,
            '&',
            amp,
        ));
        lemma_charmap_concat(spec_charmap(seq![h], '&', amp), spec_charmap(t, '&', amp), '>', gt);
        lemma_charmap_concat(
            spec_charmap(spec_charmap(seq![h], '&', amp), '>', gt),
            spec_charmap(spec_charmap(t, '&', amp), '>', gt),
            '<',
            lt,
        );
    }
}

fn escape_chars(v: &Vec<char>) -> (r: Vec<char>)
    ensures
        r@ == spec_escape(v@),
{
    let n = v.len();
    let mut out: Vec<char> = Vec::new();
    let mut i: usize = 0;
    proof {
        assert(v@.skip(0) =~= v@);
    }
    while i < n
        invariant
            i <= n,
            n == v@.len(),
            spec_escape(v@) == out@ + spec_escape(v@.skip(i as int)),
        decreases n - i,
    {
        let ghost out0 = out@;
        let ghost rest = v@.skip(i as int);
        let c = v[i];
        if c == '&' {
            out.push('&');
            out.push('a');
            out.push('m');
            out.push('p');
            out.push(';');
        } else if c == '>' {
            out.push('&');
            out.push('g');
            out.push('t');
            out.push(';');
        } else if c == '<' {
            out.push('&');
            out.push('l');
            out.push('t');
            out.push(';');
        } else {
            out.push(c);
        }
        proof {
            assert(out@ =~= out0 + spec_escape_char(v@[i as int]));
            assert(rest.drop_first() =~= v@.skip(i + 1));
        }
        i = i + 1;
    }
    proof {
        assert(v@.skip(n as int) =~= Seq::<char>::empty());
    }
    out
}

/// A text placeholder value: one or more styled spans, or a plain string
/// that is substituted verbatim.
#[derive(Debug, Clone)]
pub enum TextPlaceholderValue {
    MultiTSpan(Vec<TextSpan>),
    SingleTSpan(TextSpan),
    String(String),
}

/// Text placeholder subvalues.
#[derive(Debug, Clone)]
pub struct TextSpan {
    /// The text value.
    pub value: String,
    /// Optional: The fill color.
    pub fill: Option<String>,
    /// Optional: The font size, as the decimal text placed into the attribute.
    pub font_size: Option<String>,
    /// Optional: The font weight.
    pub font_weight: Option<u32>,
    /// Optional: The font family.
    pub font_family: Option<String>,
}

/// The style attributes present on a span, in the fixed order
/// fill, font-size, font-weight, font-family.
pub open spec fn spec_tspan_attrs(s: TextSpan) -> Seq<Seq<char>> {
    let r0 = Seq::<Seq<char>>::empty();
    let r1 = match s.fill {
        Some(fill) => r0.push("fill=\""@ + fill@ + "\""@),
        None => r0,
    };
    let r2 = match s.font_size {
        Some(size) => r1.push("font-size=\""@ + size@ + "\""@),
        None => r1,
    };
    let r3 = match s.font_weight {
        Some(weight) => r2.push("font-weight=\""@ + spec_decimal(weight as int) + "\""@),
        None => r2,
    };
    match s.font_family {
        Some(family) => r3.push("font-family=\""@ + family@ + "\""@),
        None => r3,
    }
}

/// Pieces joined by a single space, with no leading or trailing space.
pub open spec fn spec_join_space(ps: Seq<Seq<char>>) -> Seq<char>
    decreases ps.len(),
{
    if ps.len() == 0 {
        Seq::empty()
    } else if ps.len() == 1 {
        ps[0]
    } else {
        spec_join_space(ps.drop_last()) + " "@ + ps.last()
    }
}

/// The markup element a span renders to: its present style attributes,
/// a fixed whitespace-preservation attribute, and the escaped text content.
pub open spec fn spec_tspan(s: TextSpan) -> Seq<char> {
    "<tspan "@ + spec_join_space(spec_tspan_attrs(s)) + " xml:space=\"preserve\">"@ + spec_escape(
        s.value@,
    ) + "</tspan>"@
}

fn make_attr(prefix: &str, val: &str) -> (r: String)
    ensures
        r@ == prefix@ + val@ + "\""@,
{
    let mut r = String::new();
    r.append(prefix);
    r.append(val);
    r.append("\"");
    r
}

impl TextSpan {
    /// Escapes special characters that could be interpreted as XML.
    pub fn escaped_value(&self) -> (r: String)
        ensures
            r@ == spec_escape(self.value@),
    {
        let cs = str_to_chars(self.value.as_str());
        let e = escape_chars(&cs);
        chars_to_string(&e)
    }

    /// Converts the text span to an XML tspan element string.
    pub fn to_tspan(&self) -> (r: String)
        ensures
            r@ == spec_tspan(*self),
    {
        let mut attributes: Vec<String> = Vec::new();

        if let Some(fill) = &self.fill {
            attributes.push(make_attr("fill=\"", fill.as_str()));
        }

        if let Some(font_size) = &self.font_size {
            attributes.push(make_attr("font-size=\"", font_size.as_str()));
        }

        if let Some(font_weight) = self.font_weight {
            let digits = u32_to_decimal(font_weight);
            let digits_str = chars_to_string(&digits);
            attributes.push(make_attr("font-weight=\"", digits_str.as_str()));
        }

        if let Some(font_family) = &self.font_family {
            attributes.push(make_attr("font-family=\"", font_family.as_str()));
        }

        proof {
            assert(attributes@.map_values(|a: String| a@) =~= spec_tspan_attrs(*self));
        }

        let joined = join_space(&attributes);

        let mut r = String::new();
        r.append("<tspan ");
        r.append(joined.as_str());
        r.append(" xml:space=\"preserve\">");
        let escaped = self.escaped_value();
        r.append(escaped.as_str());
        r.append("</tspan>");
        r
    }
}

fn join_space(pieces: &Vec<String>) -> (r: String)
    ensures
        r@ == spec_join_space(pieces@.map_values(|a: String| a@)),
{
    let ghost ps = pieces@.map_values(|a: String| a@);
    let mut r = String::new();
    let mut i: usize = 0;
    while i < pieces.len()
        invariant
            i <= pieces@.len(),
            ps == pieces@.map_values(|a: String| a@),
            r@ == spec_join_space(ps.take(i as int)),
        decreases pieces@.len() - i,
    {
        if i > 0 {
            r.append(" ");
        }
        r.append(pieces[i].as_str());
        proof {
            assert(ps.take(i + 1).drop_last() =~= ps.take(i as int));
            assert(ps.take(i + 1).last() == ps[i as int]);
            if i == 0 {
                assert(r@ =~= spec_join_space(ps.take(1)));
            }
        }
        i = i + 1;
    }
    proof {
        assert(ps.take(pieces@.len() as int) =~= ps);
    }
    r
}

/// What a text placeholder value resolves to: every span rendered in order
/// with no separator, or the plain string taken verbatim.
pub open spec fn spec_concat_tspans(ss: Seq<TextSpan>) -> Seq<char>
    decreases ss.len(),
{
    if ss.len() == 0 {
        Seq::empty()
    } else {
        spec_concat_tspans(ss.drop_last()) + spec_tspan(ss.last())
    }
}

/// The resolved substitution text of one text placeholder value.
pub open spec fn spec_text_value(v: TextPlaceholderValue) -> Seq<char> {
    match v {
        TextPlaceholderValue::MultiTSpan(spans) => spec_concat_tspans(spans@),
        TextPlaceholderValue::SingleTSpan(span) => spec_tspan(span),
        TextPlaceholderValue::String(s) => s@,
    }
}

/// Placeholder values.
#[derive(Debug, Clone)]
pub struct PlaceholderValues {
    /// Text placeholder values.
    pub text: TextPlaceholderValueMap,
    /// Image placeholder values.
    pub images: PlaceholderValueMap,
    /// Shape placeholder values.
    pub shapes: PlaceholderValueMap,
}

fn clone_value_map(m: &PlaceholderValueMap) -> (r: PlaceholderValueMap)
    ensures
        r@ == m@,
{
    let mut r: PlaceholderValueMap = Vec::new();
    let mut i: usize = 0;
    while i < m.len()
        invariant
            i <= m@.len(),
            r@ == m@.take(i as int),
        decreases m@.len() - i,
    {
        let k = m[i].0.clone();
        let v = m[i].1.clone();
        r.push((k, v));
        proof {
            assert(r@ =~= m@.take(i + 1));
        }
        i = i + 1;
    }
    proof {
        assert(m@.take(m@.len() as int) =~= m@);
    }
    r
}

fn concat_tspans(spans: &Vec<TextSpan>) -> (r: String)
    ensures
        r@ == spec_concat_tspans(spans@),
{
    let mut r = String::new();
    let mut i: usize = 0;
    while i < spans.len()
        invariant
            i <= spans@.len(),
            r@ == spec_concat_tspans(spans@.take(i as int)),
        decreases spans@.len() - i,
    {
        let t = spans[i].to_tspan();
        r.append(t.as_str());
        proof {
            assert(spans@.take(i + 1).drop_last() =~= spans@.take(i as int));
            assert(spans@.take(i + 1).last() == spans@[i as int]);
        }
        i = i + 1;
    }
    proof {
        assert(spans@.take(spans@.len() as int) =~= spans@);
    }
    r
}

impl PlaceholderValues {
    /// Each namespace maps a name at most once.
    pub open spec fn wf(self) -> bool {
        unique_text_keys(self.text@) && unique_keys(self.images@) && unique_keys(self.shapes@)
    }

    /// Converts the text placeholder values to a flat map: every span list is
    /// rendered to its markup, a plain string is passed through verbatim.
    pub fn text(&self) -> (r: PlaceholderValueMap)
        ensures
            r@.len() == self.text@.len(),
            forall|i: int|
                0 <= i < r@.len() ==> r@[i].0@ == self.text@[i].0@ && r@[i].1@ == spec_text_value(
                    self.text@[i].1,
                ),
            unique_text_keys(self.text@) ==> unique_keys(r@),
    {
        let mut map: PlaceholderValueMap = Vec::new();
        let mut i: usize = 0;
        while i < self.text.len()
            invariant
                i <= self.text@.len(),
                map@.len() == i,
                forall|j: int|
                    0 <= j < i ==> map@[j].0@ == self.text@[j].0@ && map@[j].1@ == spec_text_value(
                        self.text@[j].1,
                    ),
            decreases self.text@.len() - i,
        {
            let id = self.text[i].0.clone();
            let output_value = match &self.text[i].1 {
                TextPlaceholderValue::MultiTSpan(spans) => concat_tspans(spans),
                TextPlaceholderValue::SingleTSpan(span) => span.to_tspan(),
                TextPlaceholderValue::String(str_val) => str_val.clone(),
            };
            map.push((id, output_value));
            i = i + 1;
        }
        proof {
            if unique_text_keys(self.text@) {
                assert forall|a: int, b: int|
                    0 <= a < b < map@.len() implies map@[a].0@ != map@[b].0@ by {
                    assert(self.text@[a].0@ != self.text@[b].0@);
                }
            }
        }
        map
    }

    /// Returns the image placeholder values.
    pub fn images(&self) -> (r: PlaceholderValueMap)
        ensures
            r@ == self.images@,
            unique_keys(self.images@) ==> unique_keys(r@),
    {
        clone_value_map(&self.images)
    }

    /// Returns the shape placeholder values.
    pub fn shapes(&self) -> (r: PlaceholderValueMap)
        ensures
            r@ == self.shapes@,
            unique_keys(self.shapes@) ==> unique_keys(r@),
    {
        clone_value_map(&self.shapes)
    }
}

/// Track placeholders that have been used. This is used to generate warnings
/// when placeholders are not used.
#[derive(Debug)]
pub struct UsedPlaceholders {
    /// Text placeholders that have been used.
    pub text: Vec<String>,
    /// Image placeholders that have been used.
    pub images: Vec<String>,
    /// Shape placeholders that have been used.
    pub shapes: Vec<String>,
}

impl UsedPlaceholders {
    /// Creates a new UsedPlaceholders struct.
    pub fn new() -> (r: Self)
        ensures
            r.text@.len() == 0,
            r.images@.len() == 0,
            r.shapes@.len() == 0,
    {
        UsedPlaceholders { text: Vec::new(), images: Vec::new(), shapes: Vec::new() }
    }
}

} // verus!
