//! Rendering and parsing of the durable configuration document.
//!
//! The document is a single JSON-shaped object with exactly two fields,
//! written in a canonical form with no interior whitespace:
//!
//! `{"collections":["p1","p2"],"od_model":"m"}`
//!
//! Inside a quoted path only `"` and `\` are escaped (as `\"` and `\\`);
//! every other character, unicode included, stands as itself. The renderer
//! and the parser are both specified against the same mathematical grammar,
//! and the round-trip law (parsing a rendered document yields the original
//! model) is proved below.

use crate::config::{Config, ConfigError, ConfigModel};
use vstd::prelude::*;

verus! {

// ---------------------------------------------------------------------------
// The grammar, as spec functions.
// ---------------------------------------------------------------------------

/// How one character appears inside a quoted path.
pub open spec fn esc_char(c: char) -> Seq<char> {
    if c == '"' || c == '\\' {
        seq!['\\', c]
    } else {
        seq![c]
    }
}

/// How a whole path appears inside its quotes.
pub open spec fn esc_chars(s: Seq<char>) -> Seq<char>
    decreases s.len(),
{
    if s.len() == 0 {
        Seq::empty()
    } else {
        esc_char(s[0]) + esc_chars(s.drop_first())
    }
}

/// A path with its quotes.
pub open spec fn quoted(s: Seq<char>) -> Seq<char> {
    seq!['"'] + esc_chars(s) + seq!['"']
}

/// The text that follows the first element of the collection list: zero or
/// more `,"..."` groups and the closing bracket.
pub open spec fn listed_more(l: Seq<Seq<char>>) -> Seq<char>
    decreases l.len(),
{
    if l.len() == 0 {
        seq![']']
    } else {
        seq![','] + quoted(l[0]) + listed_more(l.drop_first())
    }
}

/// The collection list from its first element through the closing bracket.
pub open spec fn listed(l: Seq<Seq<char>>) -> Seq<char> {
    if l.len() == 0 {
        seq![']']
    } else {
        quoted(l[0]) + listed_more(l.drop_first())
    }
}

/// The opening of the document, through the bracket that opens the list.
pub open spec fn head_marker() -> Seq<char> {
    seq!['{', '"', 'c', 'o', 'l', 'l', 'e', 'c', 't', 'i', 'o', 'n', 's', '"', ':', '[']
}

/// The text between the collection list and the model path.
pub open spec fn tail_marker() -> Seq<char> {
    seq![',', '"', 'o', 'd', '_', 'm', 'o', 'd', 'e', 'l', '"', ':']
}

/// The full rendered document of a configuration model.
pub open spec fn rendered(m: ConfigModel) -> Seq<char> {
    head_marker() + listed(m.collections) + tail_marker() + quoted(m.od_model) + seq!['}']
}

// ---------------------------------------------------------------------------
// The parser, as spec functions. Each partial parser takes the whole text
// and a position, and yields the parsed value with the position just past
// it, or nothing when the text does not fit the grammar.
// ---------------------------------------------------------------------------

/// Whether `t` stands letter for letter at position `i` of `s`.
pub open spec fn begins_with(s: Seq<char>, i: int, t: Seq<char>) -> bool {
    &&& 0 <= i
    &&& i + t.len() <= s.len()
    &&& s.subrange(i, i + t.len()) == t
}

/// The inside of a quoted path, from just after the opening quote through
/// the closing quote.
pub open spec fn parse_str_body(s: Seq<char>, i: int) -> Option<(Seq<char>, int)>
    decreases s.len() - i,
{
    if i < 0 || i >= s.len() {
        None
    } else if s[i] == '"' {
        Some((Seq::empty(), i + 1))
    } else if s[i] == '\\' {
        if i + 1 < s.len() && (s[i + 1] == '"' || s[i + 1] == '\\') {
            match parse_str_body(s, i + 2) {
                Some(p) => Some((seq![s[i + 1]] + p.0, p.1)),
                None => None,
            }
        } else {
            None
        }
    } else {
        match parse_str_body(s, i + 1) {
            Some(p) => Some((seq![s[i]] + p.0, p.1)),
            None => None,
        }
    }
}

/// A quoted path, opening quote included.
pub open spec fn parse_string(s: Seq<char>, i: int) -> Option<(Seq<char>, int)> {
    if 0 <= i < s.len() && s[i] == '"' {
        parse_str_body(s, i + 1)
    } else {
        None
    }
}

/// The collection list after its first element: either the closing bracket,
/// or a comma, one more element, and the rest.
pub open spec fn parse_more(s: Seq<char>, i: int) -> Option<(Seq<Seq<char>>, int)>
    decreases s.len() - i,
{
    if i < 0 || i >= s.len() {
        None
    } else if s[i] == ']' {
        Some((Seq::empty(), i + 1))
    } else if s[i] == ',' {
        match parse_string(s, i + 1) {
            Some(p) => {
                if p.1 <= i + 1 || p.1 > s.len() {
                    None
                } else {
                    match parse_more(s, p.1) {
                        Some(q) => Some((seq![p.0] + q.0, q.1)),
                        None => None,
                    }
                }
            },
            None => None,
        }
    } else {
        None
    }
}

/// The collection list from its first element (or the closing bracket of an
/// empty list) through the closing bracket.
pub open spec fn parse_elems(s: Seq<char>, i: int) -> Option<(Seq<Seq<char>>, int)> {
    if i < 0 || i >= s.len() {
        None
    } else if s[i] == ']' {
        Some((Seq::empty(), i + 1))
    } else {
        match parse_string(s, i) {
            Some(p) => match parse_more(s, p.1) {
                Some(q) => Some((seq![p.0] + q.0, q.1)),
                None => None,
            },
            None => None,
        }
    }
}

/// The whole document. Yields the configuration model exactly when the text
/// fits the grammar from its first character to its last.
pub open spec fn parse_rendered(s: Seq<char>) -> Option<ConfigModel> {
    if !begins_with(s, 0, head_marker()) {
        None
    } else {
        match parse_elems(s, head_marker().len() as int) {
            Some(p) => {
                if !begins_with(s, p.1, tail_marker()) {
                    None
                } else {
                    match parse_string(s, p.1 + tail_marker().len()) {
                        Some(q) => {
                            if q.1 + 1 == s.len() && s[q.1] == '}' {
                                Some(ConfigModel { collections: p.0, od_model: q.0 })
                            } else {
                                None
                            }
                        },
                        None => None,
                    }
                }
            },
            None => None,
        }
    }
}

// ---------------------------------------------------------------------------
// Facts about the parser.
// ---------------------------------------------------------------------------

/// A parsed string body always moves the position forward, and never past
/// the end of the text.
pub proof fn lemma_str_body_advances(s: Seq<char>, i: int)
    requires
        parse_str_body(s, i) is Some,
    ensures
        i < parse_str_body(s, i)->Some_0.1 <= s.len(),
    decreases s.len() - i,
{
    if i < 0 || i >= s.len() {
    } else if s[i] == '"' {
    } else if s[i] == '\\' {
        lemma_str_body_advances(s, i + 2);
    } else {
        lemma_str_body_advances(s, i + 1);
    }
}

/// A parsed quoted path always moves the position forward by at least two.
pub proof fn lemma_string_advances(s: Seq<char>, i: int)
    requires
        parse_string(s, i) is Some,
    ensures
        i + 1 < parse_string(s, i)->Some_0.1 <= s.len(),
{
    lemma_str_body_advances(s, i + 1);
}

// ---------------------------------------------------------------------------
// The round-trip law: parsing a rendered document yields the original model.
// ---------------------------------------------------------------------------

/// Parsing a string body recovers the path that was escaped into it,
/// wherever it stands in a larger text.
proof fn lemma_body_round_trip(s: Seq<char>, m: Seq<char>, i: int)
    requires
        0 <= i,
        i + esc_chars(m).len() + 1 <= s.len(),
        s.subrange(i, i + esc_chars(m).len() + 1) == esc_chars(m) + seq!['"'],
    ensures
        parse_str_body(s, i) == Some((m, i + esc_chars(m).len() + 1)),
    decreases m.len(),
{
    let body = esc_chars(m) + seq!['"'];
    assert(forall|k: int|
        0 <= k < body.len() ==> s[i + k] == #[trigger] body[k]) by {
        assert(forall|k: int|
            0 <= k < body.len() ==> s.subrange(i, i + esc_chars(m).len() + 1)[k]
                == #[trigger] body[k]);
    }
    if m.len() == 0 {
        assert(s[i] == body[0]);
        assert(s[i] == '"');
        assert(m =~= Seq::<char>::empty());
    } else {
        let c = m[0];
        let rest = m.drop_first();
        assert(esc_chars(m) == esc_char(c) + esc_chars(rest));
        let step = esc_char(c).len();
        let sub = s.subrange(i + step, i + esc_chars(m).len() + 1);
        assert(sub =~= esc_chars(rest) + seq!['"']) by {
            assert(forall|k: int| 0 <= k < sub.len() ==> sub[k] == s[i + step + k]);
            assert(forall|k: int|
                0 <= k < sub.len() ==> s[i + step + k] == #[trigger] body[step + k]);
            assert(forall|k: int|
                0 <= k < sub.len() ==> body[step + k] == (esc_chars(rest) + seq!['"'])[k]);
        }
        lemma_body_round_trip(s, rest, i + step);
        if c == '"' || c == '\\' {
            assert(s[i] == body[0] && body[0] == '\\');
            assert(s[i + 1] == body[1] && body[1] == c);
            assert(parse_str_body(s, i) == Some(
                (seq![c] + rest, i + esc_chars(m).len() + 1),
            ));
        } else {
            assert(s[i] == body[0] && body[0] == c);
            assert(parse_str_body(s, i) == Some(
                (seq![c] + rest, i + esc_chars(m).len() + 1),
            ));
        }
        assert(seq![c] + rest =~= m);
    }
}

/// Parsing a quoted path recovers the path that was rendered into it.
proof fn lemma_string_round_trip(s: Seq<char>, m: Seq<char>, i: int)
    requires
        0 <= i,
        i + quoted(m).len() <= s.len(),
        s.subrange(i, i + quoted(m).len()) == quoted(m),
    ensures
        parse_string(s, i) == Some((m, i + quoted(m).len())),
{
    assert(s[i] == quoted(m)[0]) by {
        assert(s.subrange(i, i + quoted(m).len())[0] == s[i]);
    }
    assert(quoted(m)[0] == '"');
    let sub = s.subrange(i + 1, i + quoted(m).len());
    assert(sub =~= esc_chars(m) + seq!['"']) by {
        assert(forall|k: int|
            0 <= k < sub.len() ==> sub[k] == s.subrange(i, i + quoted(m).len())[k + 1]);
        assert(forall|k: int|
            0 <= k < sub.len() ==> quoted(m)[k + 1] == (esc_chars(m) + seq!['"'])[k]);
    }
    lemma_body_round_trip(s, m, i + 1);
}

/// Parsing the tail of a rendered collection list recovers the remaining
/// elements.
proof fn lemma_more_round_trip(s: Seq<char>, l: Seq<Seq<char>>, i: int)
    requires
        0 <= i,
        i + listed_more(l).len() <= s.len(),
        s.subrange(i, i + listed_more(l).len()) == listed_more(l),
    ensures
        parse_more(s, i) == Some((l, i + listed_more(l).len())),
    decreases l.len(),
{
    let t = listed_more(l);
    assert(forall|k: int|
        0 <= k < t.len() ==> s[i + k] == #[trigger] t[k]) by {
        assert(forall|k: int|
            0 <= k < t.len() ==> s.subrange(i, i + t.len())[k] == #[trigger] t[k]);
    }
    if l.len() == 0 {
        assert(s[i] == t[0]);
        assert(s[i] == ']');
        assert(l =~= Seq::<Seq<char>>::empty());
    } else {
        let e = l[0];
        let rest = l.drop_first();
        assert(t == seq![','] + quoted(e) + listed_more(rest));
        assert(s[i] == t[0]);
        assert(s[i] == ',');
        let q = quoted(e).len();
        let sub1 = s.subrange(i + 1, i + 1 + q);
        assert(sub1 =~= quoted(e)) by {
            assert(forall|k: int| 0 <= k < q ==> sub1[k] == s[i + 1 + k]);
            assert(forall|k: int| 0 <= k < q ==> s[i + 1 + k] == #[trigger] t[1 + k]);
            assert(forall|k: int| 0 <= k < q ==> t[1 + k] == quoted(e)[k]);
        }
        lemma_string_round_trip(s, e, i + 1);
        let j = i + 1 + q;
        let sub2 = s.subrange(j, i + t.len());
        assert(sub2 =~= listed_more(rest)) by {
            assert(forall|k: int| 0 <= k < sub2.len() ==> sub2[k] == s[j + k]);
            assert(forall|k: int|
                0 <= k < sub2.len() ==> s[j + k] == #[trigger] t[1 + q + k]);
            assert(forall|k: int|
                0 <= k < sub2.len() ==> t[1 + q + k] == listed_more(rest)[k]);
        }
        lemma_more_round_trip(s, rest, j);
        assert(parse_more(s, i) == Some((seq![e] + rest, i + t.len())));
        assert(seq![e] + rest =~= l);
    }
}

/// Parsing a rendered collection list recovers its elements.
proof fn lemma_elems_round_trip(s: Seq<char>, l: Seq<Seq<char>>, i: int)
    requires
        0 <= i,
        i + listed(l).len() <= s.len(),
        s.subrange(i, i + listed(l).len()) == listed(l),
    ensures
        parse_elems(s, i) == Some((l, i + listed(l).len())),
{
    let t = listed(l);
    assert(forall|k: int|
        0 <= k < t.len() ==> s[i + k] == #[trigger] t[k]) by {
        assert(forall|k: int|
            0 <= k < t.len() ==> s.subrange(i, i + t.len())[k] == #[trigger] t[k]);
    }
    if l.len() == 0 {
        assert(s[i] == t[0]);
        assert(s[i] == ']');
        assert(l =~= Seq::<Seq<char>>::empty());
    } else {
        let e = l[0];
        let rest = l.drop_first();
        assert(t == quoted(e) + listed_more(rest));
        let q = quoted(e).len();
        assert(s[i] == '"') by {
            assert(t[0] == quoted(e)[0]);
        }
        let sub1 = s.subrange(i, i + q);
        assert(sub1 =~= quoted(e)) by {
            assert(forall|k: int| 0 <= k < q ==> sub1[k] == s[i + k]);
            assert(forall|k: int| 0 <= k < q ==> s[i + k] == #[trigger] t[k]);
            assert(forall|k: int| 0 <= k < q ==> t[k] == quoted(e)[k]);
        }
        lemma_string_round_trip(s, e, i);
        let j = i + q;
        let sub2 = s.subrange(j, i + t.len());
        assert(sub2 =~= listed_more(rest)) by {
            assert(forall|k: int| 0 <= k < sub2.len() ==> sub2[k] == s[j + k]);
            assert(forall|k: int| 0 <= k < sub2.len() ==> s[j + k] == #[trigger] t[q + k]);
            assert(forall|k: int|
                0 <= k < sub2.len() ==> t[q + k] == listed_more(rest)[k]);
        }
        lemma_more_round_trip(s, rest, j);
        assert(parse_elems(s, i) == Some((seq![e] + rest, i + t.len())));
        assert(seq![e] + rest =~= l);
    }
}

/// The round-trip law: a rendered configuration document, parsed, yields
/// exactly the configuration model it was rendered from — for every model,
/// whatever characters its paths hold.
pub proof fn lemma_render_parse_round_trip(m: ConfigModel)
    ensures
        parse_rendered(rendered(m)) == Some(m),
{
    let s = rendered(m);
    let h = head_marker().len() as int;
    let cols = listed(m.collections);
    let tl = tail_marker().len() as int;
    let q = quoted(m.od_model);
    assert(s.len() == h + cols.len() + tl + q.len() + 1);

    assert(forall|k: int|
        0 <= k < h ==> s[k] == #[trigger] head_marker()[k]);
    assert(s.subrange(0, h) =~= head_marker());
    assert(begins_with(s, 0, head_marker()));

    assert(forall|k: int|
        0 <= k < cols.len() ==> s[h + k] == #[trigger] cols[k]);
    assert(s.subrange(h, h + cols.len()) =~= cols);
    lemma_elems_round_trip(s, m.collections, h);
    let i = h + cols.len();

    assert(forall|k: int|
        0 <= k < tl ==> s[i + k] == #[trigger] tail_marker()[k]);
    assert(s.subrange(i, i + tl) =~= tail_marker());
    assert(begins_with(s, i, tail_marker()));

    assert(forall|k: int| 0 <= k < q.len() ==> s[i + tl + k] == #[trigger] q[k]);
    assert(s.subrange(i + tl, i + tl + q.len()) =~= q);
    lemma_string_round_trip(s, m.od_model, i + tl);
    let j = i + tl + q.len();

    assert(s[j] == '}');
    assert(j + 1 == s.len());
    assert(parse_rendered(s) == Some(ConfigModel { collections: m.collections, od_model: m.od_model }));
    assert(ConfigModel { collections: m.collections, od_model: m.od_model } =~= m);
}

// ---------------------------------------------------------------------------
// Executable rendering.
// ---------------------------------------------------------------------------

/// Escaping one more character extends the escaped text on the right.
proof fn lemma_esc_chars_snoc(t: Seq<char>, c: char)
    ensures
        esc_chars(t.push(c)) == esc_chars(t) + esc_char(c),
    decreases t.len(),
{
    assert(t.push(c)[0] == if t.len() == 0 { c } else { t[0] });
    if t.len() == 0 {
        assert(t.push(c).drop_first() =~= Seq::<char>::empty());
        assert(esc_chars(t.push(c)) == esc_char(c) + esc_chars(Seq::<char>::empty()));
        assert(esc_chars(t.push(c)) =~= esc_chars(t) + esc_char(c));
    } else {
        assert(t.push(c).drop_first() =~= t.drop_first().push(c));
        lemma_esc_chars_snoc(t.drop_first(), c);
        assert(esc_chars(t.push(c)) =~= esc_chars(t) + esc_char(c));
    }
}

/// Collecting a string's characters into a vector of plain `char` values.
fn chars_of(s: &str) -> (r: Vec<char>)
    ensures
        r@ == s@,
{
    let n = s.unicode_len();
    let mut r: Vec<char> = Vec::new();
    let mut k: usize = 0;
    while k < n
        invariant
            n == s@.len(),
            k <= n,
            r@ == s@.take(k as int),
        decreases n - k,
    {
        r.push(s.get_char(k));
        proof {
            assert(r@ =~= s@.take(k as int + 1));
        }
        k += 1;
    }
    proof {
        assert(s@.take(n as int) =~= s@);
    }
    r
}

/// Relies on `String: FromIterator<char>`: collecting an iterator of
/// characters yields the string of exactly those characters, in order.
#[verifier::external_body]
fn string_from_chars(v: &Vec<char>) -> (r: String)
    ensures
        r@ == v@,
{
    v.iter().collect()
}

/// Appends a path in its quoted, escaped form.
fn push_quoted(out: &mut Vec<char>, s: &str)
    ensures
        final(out)@ == old(out)@ + quoted(s@),
{
    out.push('"');
    let n = s.unicode_len();
    let mut k: usize = 0;
    while k < n
        invariant
            n == s@.len(),
            k <= n,
            out@ == old(out)@ + seq!['"'] + esc_chars(s@.take(k as int)),
        decreases n - k,
    {
        let c = s.get_char(k);
        proof {
            lemma_esc_chars_snoc(s@.take(k as int), c);
            assert(s@.take(k as int + 1) =~= s@.take(k as int).push(c));
        }
        if c == '"' || c == '\\' {
            out.push('\\');
        }
        out.push(c);
        proof {
            assert(out@ =~= old(out)@ + seq!['"'] + esc_chars(s@.take(k as int + 1)));
        }
        k += 1;
    }
    out.push('"');
    proof {
        assert(s@.take(n as int) =~= s@);
        assert(out@ =~= old(out)@ + quoted(s@));
    }
}

/// Appends the collection list after its first element: each remaining
/// element behind a comma, then the closing bracket.
fn push_more(out: &mut Vec<char>, cols: &Vec<String>, k: usize)
    requires
        1 <= k <= cols@.len(),
    ensures
        final(out)@ == old(out)@ + listed_more(cols.deep_view().skip(k as int)),
    decreases cols@.len() - k,
{
    let ghost l = cols.deep_view().skip(k as int);
    if k == cols.len() {
        out.push(']');
        proof {
            assert(l =~= Seq::<Seq<char>>::empty());
            assert(out@ =~= old(out)@ + listed_more(l));
        }
    } else {
        out.push(',');
        push_quoted(out, &cols[k]);
        push_more(out, cols, k + 1);
        proof {
            assert(l[0] == cols@[k as int]@);
            assert(l.drop_first() =~= cols.deep_view().skip(k as int + 1));
            assert(out@ =~= old(out)@ + listed_more(l));
        }
    }
}

/// Renders a configuration into the exact document that `load_config`
/// parses. This is the compute half of persisting: the hosting application
/// writes the returned text to the configuration file, and reports
/// `ConfigWriteFailed` when the destination cannot be created or written.
pub fn save_config(config: &Config) -> (r: String)
    ensures
        r@ == rendered(config@),
{
    let mut out: Vec<char> = Vec::new();
    out.push('{');
    out.push('"');
    out.push('c');
    out.push('o');
    out.push('l');
    out.push('l');
    out.push('e');
    out.push('c');
    out.push('t');
    out.push('i');
    out.push('o');
    out.push('n');
    out.push('s');
    out.push('"');
    out.push(':');
    out.push('[');
    proof {
        assert(out@ =~= head_marker());
    }
    let ghost l = config.collections.deep_view();
    let ghost after_list = head_marker() + listed(l);
    if config.collections.len() == 0 {
        out.push(']');
        proof {
            assert(l.len() == 0);
            assert(out@ =~= after_list);
        }
    } else {
        push_quoted(&mut out, &config.collections[0]);
        push_more(&mut out, &config.collections, 1);
        proof {
            assert(l[0] == config.collections@[0]@);
            assert(l.drop_first() =~= l.skip(1));
            assert(out@ =~= after_list);
        }
    }
    out.push(',');
    out.push('"');
    out.push('o');
    out.push('d');
    out.push('_');
    out.push('m');
    out.push('o');
    out.push('d');
    out.push('e');
    out.push('l');
    out.push('"');
    out.push(':');
    proof {
        assert(out@ =~= after_list + tail_marker());
    }
    push_quoted(&mut out, &config.od_model);
    out.push('}');
    proof {
        assert(out@ =~= rendered(config@));
    }
    string_from_chars(&out)
}

// ---------------------------------------------------------------------------
// Executable parsing.
// ---------------------------------------------------------------------------

/// The opening of the document as plain characters.
fn head_marker_chars() -> (r: Vec<char>)
    ensures
        r@ == head_marker(),
{
    let mut r: Vec<char> = Vec::new();
    r.push('{');
    r.push('"');
    r.push('c');
    r.push('o');
    r.push('l');
    r.push('l');
    r.push('e');
    r.push('c');
    r.push('t');
    r.push('i');
    r.push('o');
    r.push('n');
    r.push('s');
    r.push('"');
    r.push(':');
    r.push('[');
    proof {
        assert(r@ =~= head_marker());
    }
    r
}

/// The text between the collection list and the model path, as plain
/// characters.
fn tail_marker_chars() -> (r: Vec<char>)
    ensures
        r@ == tail_marker(),
{
    let mut r: Vec<char> = Vec::new();
    r.push(',');
    r.push('"');
    r.push('o');
    r.push('d');
    r.push('_');
    r.push('m');
    r.push('o');
    r.push('d');
    r.push('e');
    r.push('l');
    r.push('"');
    r.push(':');
    proof {
        assert(r@ =~= tail_marker());
    }
    r
}

/// Whether `t` stands letter for letter at position `i` of `v`.
fn begins_with_at(v: &Vec<char>, i: usize, t: &Vec<char>) -> (r: bool)
    ensures
        r == begins_with(v@, i as int, t@),
{
    if v.len() < t.len() || i > v.len() - t.len() {
        return false;
    }
    let mut k: usize = 0;
    while k < t.len()
        invariant
            v@.len() <= usize::MAX,
            i + t@.len() <= v@.len(),
            k <= t@.len(),
            forall|x: int| 0 <= x < k ==> v@[i + x] == t@[x],
        decreases t@.len() - k,
    {
        proof {
            assert(i + k < v@.len());
        }
        if v[i + k] != t[k] {
            proof {
                assert(v@.subrange(i as int, i + t@.len())[k as int] == v@[i + k]);
            }
            return false;
        }
        k += 1;
    }
    proof {
        assert(v@.subrange(i as int, i + t@.len()) =~= t@);
    }
    true
}

/// The inside of a quoted path, from just after the opening quote through
/// the closing quote.
fn scan_str_body(v: &Vec<char>, i: usize) -> (r: Option<(Vec<char>, usize)>)
    ensures
        match r {
            Some(p) => parse_str_body(v@, i as int) == Some((p.0@, p.1 as int)),
            None => parse_str_body(v@, i as int) is None,
        },
    decreases v@.len() - i,
{
    if i >= v.len() {
        return None;
    }
    let c = v[i];
    if c == '"' {
        let empty: Vec<char> = Vec::new();
        proof {
            assert(empty@ =~= Seq::<char>::empty());
        }
        Some((empty, i + 1))
    } else if c == '\\' {
        if i + 1 < v.len() && (v[i + 1] == '"' || v[i + 1] == '\\') {
            match scan_str_body(v, i + 2) {
                Some(p) => {
                    let (mut t, j) = p;
                    let e = v[i + 1];
                    t.insert(0, e);
                    proof {
                        assert(t@ =~= seq![e] + t@.drop_first());
                    }
                    Some((t, j))
                },
                None => None,
            }
        } else {
            None
        }
    } else {
        match scan_str_body(v, i + 1) {
            Some(p) => {
                let (mut t, j) = p;
                t.insert(0, c);
                proof {
                    assert(t@ =~= seq![c] + t@.drop_first());
                }
                Some((t, j))
            },
            None => None,
        }
    }
}

/// A quoted path, opening quote included.
fn scan_string(v: &Vec<char>, i: usize) -> (r: Option<(Vec<char>, usize)>)
    ensures
        match r {
            Some(p) => parse_string(v@, i as int) == Some((p.0@, p.1 as int)),
            None => parse_string(v@, i as int) is None,
        },
{
    if i < v.len() && v[i] == '"' {
        scan_str_body(v, i + 1)
    } else {
        None
    }
}

/// The collection list after its first element, each remaining element
/// handed back as an owned string.
fn scan_more(v: &Vec<char>, i: usize) -> (r: Option<(Vec<String>, usize)>)
    ensures
        match r {
            Some(p) => parse_more(v@, i as int) == Some((p.0.deep_view(), p.1 as int)),
            None => parse_more(v@, i as int) is None,
        },
    decreases v@.len() - i,
{
    if i >= v.len() {
        return None;
    }
    if v[i] == ']' {
        let empty: Vec<String> = Vec::new();
        proof {
            assert(empty.deep_view() =~= Seq::<Seq<char>>::empty());
        }
        return Some((empty, i + 1));
    }
    if v[i] != ',' {
        return None;
    }
    match scan_string(v, i + 1) {
        Some(p) => {
            let (e, j) = p;
            proof {
                lemma_string_advances(v@, i as int + 1);
            }
            match scan_more(v, j) {
                Some(q) => {
                    let (mut es, k) = q;
                    let ghost es0 = es.deep_view();
                    let s = string_from_chars(&e);
                    es.insert(0, s);
                    proof {
                        assert(es.deep_view() =~= seq![e@] + es0);
                    }
                    Some((es, k))
                },
                None => None,
            }
        },
        None => None,
    }
}

/// The collection list from its first element (or the closing bracket of an
/// empty list) through the closing bracket.
fn scan_elems(v: &Vec<char>, i: usize) -> (r: Option<(Vec<String>, usize)>)
    ensures
        match r {
            Some(p) => parse_elems(v@, i as int) == Some((p.0.deep_view(), p.1 as int)),
            None => parse_elems(v@, i as int) is None,
        },
{
    if i >= v.len() {
        return None;
    }
    if v[i] == ']' {
        let empty: Vec<String> = Vec::new();
        proof {
            assert(empty.deep_view() =~= Seq::<Seq<char>>::empty());
        }
        return Some((empty, i + 1));
    }
    match scan_string(v, i) {
        Some(p) => {
            let (e, j) = p;
            proof {
                lemma_string_advances(v@, i as int);
            }
            match scan_more(v, j) {
                Some(q) => {
                    let (mut es, k) = q;
                    let ghost es0 = es.deep_view();
                    let s = string_from_chars(&e);
                    es.insert(0, s);
                    proof {
                        assert(es.deep_view() =~= seq![e@] + es0);
                    }
                    Some((es, k))
                },
                None => None,
            }
        },
        None => None,
    }
}

/// The compute half of loading: parses the text read from the configuration
/// file. The hosting application reads the file itself and passes `None`
/// when it does not exist; a load that succeeds here is completed by
/// `validate_model_path`.
///
/// Returns `ConfigMissing` exactly when there was no file, `ConfigMalformed`
/// exactly when the text does not fit the document grammar, and otherwise
/// the configuration exactly as stored — no normalization, no default.
pub fn load_config(contents: Option<&str>) -> (r: Result<Config, ConfigError>)
    ensures
        contents is None ==> r == Err::<Config, ConfigError>(ConfigError::ConfigMissing),
        contents matches Some(s) ==> match parse_rendered(s@) {
            Some(m) => r matches Ok(c) && c@ == m,
            None => r == Err::<Config, ConfigError>(ConfigError::ConfigMalformed),
        },
{
    let s = match contents {
        None => {
            return Err(ConfigError::ConfigMissing);
        },
        Some(s) => s,
    };
    let v = chars_of(s);
    let head = head_marker_chars();
    if !begins_with_at(&v, 0, &head) {
        return Err(ConfigError::ConfigMalformed);
    }
    match scan_elems(&v, head.len()) {
        None => Err(ConfigError::ConfigMalformed),
        Some(p) => {
            let (cols, i1) = p;
            let tail = tail_marker_chars();
            if !begins_with_at(&v, i1, &tail) {
                return Err(ConfigError::ConfigMalformed);
            }
            let i2 = i1 + tail.len();
            match scan_string(&v, i2) {
                None => Err(ConfigError::ConfigMalformed),
                Some(q) => {
                    let (model_chars, i3) = q;
                    proof {
                        lemma_string_advances(v@, i2 as int);
                    }
                    if i3 < v.len() && v[i3] == '}' && i3 == v.len() - 1 {
                        let od_model = string_from_chars(&model_chars);
                        let c = Config { collections: cols, od_model };
                        proof {
                            assert(c@ =~= parse_rendered(s@)->Some_0);
                        }
                        Ok(c)
                    } else {
                        Err(ConfigError::ConfigMalformed)
                    }
                },
            }
        },
    }
}

/// The model-path existence check that completes a load. The hosting
/// application resolves the loaded `od_model` path against the filesystem
/// and reports the outcome here; the check depends on nothing else, so a
/// missing model entry yields `ModelPathInvalid` whatever the collections
/// hold.
pub fn validate_model_path(model_path_exists: bool) -> (r: Result<(), ConfigError>)
    ensures
        model_path_exists <==> r is Ok,
        !model_path_exists ==> r == Err::<(), ConfigError>(ConfigError::ModelPathInvalid),
{
    if model_path_exists {
        Ok(())
    } else {
        Err(ConfigError::ModelPathInvalid)
    }
}

/// The round-trip law as the lifecycle states it: a configuration saved,
/// loaded back, and saved again yields the identical document.
pub proof fn lemma_save_load_save(m: ConfigModel)
    ensures
        parse_rendered(rendered(m)) == Some(m),
        rendered(parse_rendered(rendered(m))->Some_0) == rendered(m),
{
    lemma_render_parse_round_trip(m);
}

} // verus!
