//! Template rendering with `tera`.

use vstd::prelude::*;

verus! {

#[verifier::external_type_specification]
#[verifier::external_body]
pub struct ExTeraContext(tera::Context);

#[verifier::external_type_specification]
#[verifier::external_body]
pub struct ExTeraError(tera::Error);

/// The text values held by a tera context, by key.
pub uninterp spec fn context_texts(ctx: tera::Context) -> Map<Seq<char>, Seq<char>>;

/// The boolean values held by a tera context, by key.
pub uninterp spec fn context_flags(ctx: tera::Context) -> Map<Seq<char>, bool>;

/// The integer values held by a tera context, by key.
pub uninterp spec fn context_numbers(ctx: tera::Context) -> Map<Seq<char>, int>;

/// `tera::Context::new`.  Claimed: the new context holds no value.
#[verifier::external_body]
pub(crate) fn new_context() -> (r: tera::Context)
    ensures
        context_texts(r).dom() == Set::<Seq<char>>::empty(),
        context_flags(r).dom() == Set::<Seq<char>>::empty(),
        context_numbers(r).dom() == Set::<Seq<char>>::empty(),
{
    tera::Context::new()
}

/// `tera::Context::insert` with a string value.  Claimed: `key` now holds the text
/// `value`, replacing whatever it held; other keys are unchanged.
#[verifier::external_body]
pub(crate) fn insert_text(ctx: &mut tera::Context, key: &str, value: &str)
    ensures
        context_texts(*final(ctx)) == context_texts(*old(ctx)).insert(key@, value@),
        context_flags(*final(ctx)) == context_flags(*old(ctx)).remove(key@),
        context_numbers(*final(ctx)) == context_numbers(*old(ctx)).remove(key@),
{
    ctx.insert(key, value);
}

/// `tera::Context::insert` with a boolean value.  Claimed: `key` now holds
/// `value`, replacing whatever it held; other keys are unchanged.
#[verifier::external_body]
pub(crate) fn insert_flag(ctx: &mut tera::Context, key: &str, value: bool)
    ensures
        context_texts(*final(ctx)) == context_texts(*old(ctx)).remove(key@),
        context_flags(*final(ctx)) == context_flags(*old(ctx)).insert(key@, value),
        context_numbers(*final(ctx)) == context_numbers(*old(ctx)).remove(key@),
{
    ctx.insert(key, &value);
}

/// `tera::Context::insert` with a 16-bit number.  Claimed: `key` now holds
/// `value`, replacing whatever it held; other keys are unchanged.
#[verifier::external_body]
pub(crate) fn insert_number(ctx: &mut tera::Context, key: &str, value: u16)
    ensures
        context_texts(*final(ctx)) == context_texts(*old(ctx)).remove(key@),
        context_flags(*final(ctx)) == context_flags(*old(ctx)).remove(key@),
        context_numbers(*final(ctx)) == context_numbers(*old(ctx)).insert(key@, value as int),
{
    ctx.insert(key, &value);
}

/// Literal template text: every `{` in it is followed by a character other than
/// `{`, `%` and `#`, so no tag, expression or comment starts in it (and it does
/// not end with `{`, which the next piece could turn into a tag).
pub open spec fn literal_text(t: Seq<char>) -> bool {
    forall|i: int|
        0 <= i < t.len() && #[trigger] t[i] == '{' ==> i + 1 < t.len() && t[i + 1] != '{' && t[i + 1]
            != '%' && t[i + 1] != '#'
}

/// A context key that tera reads as a plain variable name in `{{ key }}`: ASCII
/// lower-case letters, digits and `_`, starting with a letter, not read as a
/// boolean literal (a `true`/`false` prefix) and not the operator `not`.
pub open spec fn simple_key(k: Seq<char>) -> bool {
    &&& k.len() > 0
    &&& 'a' <= k[0] <= 'z'
    &&& forall|i: int| 0 <= i < k.len() ==> ('a' <= #[trigger] k[i] <= 'z' || '0' <= k[i] <= '9' || k[i] == '_')
    &&& !(k.len() >= 4 && k.take(4) == seq!['t', 'r', 'u', 'e'])
    &&& !(k.len() >= 5 && k.take(5) == seq!['f', 'a', 'l', 's', 'e'])
    &&& k != seq!['n', 'o', 't']
}

/// One piece of a template in the part of tera's language whose rendering is
/// stated: literal text, a `{{ key }}` tag, and `{% if key %}` blocks around
/// literal text.
pub enum TemplatePiece {
    /// Literal text.
    Text(Seq<char>),
    /// `{{ key }}`.
    Variable(Seq<char>),
    /// `{% if key %}then{% else %}otherwise{% endif %}`.
    IfElse(Seq<char>, Seq<char>, Seq<char>),
    /// `{% if key %}then{% endif %}`.
    If(Seq<char>, Seq<char>),
}

/// `{% if key %}`.
pub open spec fn if_open(key: Seq<char>) -> Seq<char> {
    seq!['{', '%', ' ', 'i', 'f', ' '] + key + seq![' ', '%', '}']
}

/// `{% else %}`.
pub open spec fn else_tag() -> Seq<char> {
    seq!['{', '%', ' ', 'e', 'l', 's', 'e', ' ', '%', '}']
}

/// `{% endif %}`.
pub open spec fn endif_tag() -> Seq<char> {
    seq!['{', '%', ' ', 'e', 'n', 'd', 'i', 'f', ' ', '%', '}']
}

/// The template text of one piece.
pub open spec fn piece_source(p: TemplatePiece) -> Seq<char> {
    match p {
        TemplatePiece::Text(t) => t,
        TemplatePiece::Variable(k) => seq!['{', '{', ' '] + k + seq![' ', '}', '}'],
        TemplatePiece::IfElse(k, a, b) => if_open(k) + a + else_tag() + b + endif_tag(),
        TemplatePiece::If(k, a) => if_open(k) + a + endif_tag(),
    }
}

/// The template text of the pieces, one after another.
pub open spec fn pieces_source(ps: Seq<TemplatePiece>) -> Seq<char>
    decreases ps.len(),
{
    if ps.len() == 0 {
        seq![]
    } else {
        pieces_source(ps.drop_last()) + piece_source(ps.last())
    }
}

/// A piece tera parses as described: its texts are literal text, its keys plain
/// variable names.
pub open spec fn piece_shape(p: TemplatePiece) -> bool {
    match p {
        TemplatePiece::Text(t) => literal_text(t),
        TemplatePiece::Variable(k) => simple_key(k),
        TemplatePiece::IfElse(k, a, b) => simple_key(k) && literal_text(a) && literal_text(b),
        TemplatePiece::If(k, a) => simple_key(k) && literal_text(a),
    }
}

/// A well-shaped piece whose names are present: a variable names a text value or
/// a number that is not negative, a condition names a boolean value.
pub open spec fn piece_ok(
    p: TemplatePiece,
    texts: Map<Seq<char>, Seq<char>>,
    flags: Map<Seq<char>, bool>,
    numbers: Map<Seq<char>, int>,
) -> bool {
    &&& piece_shape(p)
    &&& match p {
        TemplatePiece::Text(t) => true,
        TemplatePiece::Variable(k) => texts.dom().contains(k) || (numbers.dom().contains(k) && numbers[k] >= 0),
        TemplatePiece::IfElse(k, a, b) => flags.dom().contains(k),
        TemplatePiece::If(k, a) => flags.dom().contains(k),
    }
}

pub open spec fn pieces_ok(
    ps: Seq<TemplatePiece>,
    texts: Map<Seq<char>, Seq<char>>,
    flags: Map<Seq<char>, bool>,
    numbers: Map<Seq<char>, int>,
) -> bool {
    forall|i: int| 0 <= i < ps.len() ==> piece_ok(#[trigger] ps[i], texts, flags, numbers)
}

/// Whether `t` is made of well-shaped pieces, which tera parses.
pub open spec fn pieces_template(t: Seq<char>) -> bool {
    exists|ps: Seq<TemplatePiece>|
        #[trigger] pieces_source(ps) == t && forall|i: int| 0 <= i < ps.len() ==> piece_shape(#[trigger] ps[i])
}

/// The decimal digits of a natural number, without leading zeros (how a number
/// is written out).
pub open spec fn decimal_text(n: nat) -> Seq<char>
    decreases n,
{
    let digit = seq!['0', '1', '2', '3', '4', '5', '6', '7', '8', '9'][(n % 10) as int];
    if n < 10 {
        seq![digit]
    } else {
        decimal_text(n / 10).push(digit)
    }
}

/// What one piece renders to: the text, the variable's value (a number in
/// decimal digits), or the branch that the flag selects.
pub open spec fn piece_output(
    p: TemplatePiece,
    texts: Map<Seq<char>, Seq<char>>,
    flags: Map<Seq<char>, bool>,
    numbers: Map<Seq<char>, int>,
) -> Seq<char> {
    match p {
        TemplatePiece::Text(t) => t,
        TemplatePiece::Variable(k) => if texts.dom().contains(k) {
            texts[k]
        } else {
            decimal_text(numbers[k] as nat)
        },
        TemplatePiece::IfElse(k, a, b) => if flags[k] { a } else { b },
        TemplatePiece::If(k, a) => if flags[k] { a } else { seq![] },
    }
}

/// What the pieces render to, one after another.
pub open spec fn pieces_output(
    ps: Seq<TemplatePiece>,
    texts: Map<Seq<char>, Seq<char>>,
    flags: Map<Seq<char>, bool>,
    numbers: Map<Seq<char>, int>,
) -> Seq<char>
    decreases ps.len(),
{
    if ps.len() == 0 {
        seq![]
    } else {
        pieces_output(ps.drop_last(), texts, flags, numbers) + piece_output(ps.last(), texts, flags, numbers)
    }
}

/// The text of a successful render.
pub open spec fn ok_text(r: Result<String, tera::Error>) -> Option<Seq<char>> {
    match r {
        Ok(s) => Some(s@),
        Err(_) => None,
    }
}

/// Whenever `template` is made of such pieces, `out` is what they render to.
pub open spec fn renders_pieces(
    template: Seq<char>,
    texts: Map<Seq<char>, Seq<char>>,
    flags: Map<Seq<char>, bool>,
    numbers: Map<Seq<char>, int>,
    out: Option<Seq<char>>,
) -> bool {
    forall|ps: Seq<TemplatePiece>|
        #[trigger] pieces_source(ps) == template && pieces_ok(ps, texts, flags, numbers) ==> out == Some(
            pieces_output(ps, texts, flags, numbers),
        )
}

#[verifier::external_type_specification]
#[verifier::external_body]
pub struct ExTera(tera::Tera);

/// The sources of the templates a `Tera` holds, by name.
pub uninterp spec fn engine_templates(t: tera::Tera) -> Map<Seq<char>, Seq<char>>;

/// The name suffixes for which a `Tera` escapes the values it renders.
pub uninterp spec fn escaping_suffixes(t: tera::Tera) -> Seq<Seq<char>>;

/// Whether `name` ends with one of `suffixes`.
pub open spec fn ends_with_any(name: Seq<char>, suffixes: Seq<Seq<char>>) -> bool {
    exists|i: int| 0 <= i < suffixes.len() && name.len() >= suffixes[i].len() && #[trigger] name.skip(
        name.len() - suffixes[i].len(),
    ) == suffixes[i]
}

/// `tera::Tera::default`.  Claimed: it holds no template, and escapes values in
/// templates whose names end with `.html`, `.htm` or `.xml`.
#[verifier::external_body]
pub(crate) fn new_engine() -> (r: tera::Tera)
    ensures
        engine_templates(r).dom().is_empty(),
        escaping_suffixes(r) == seq![".html"@, ".htm"@, ".xml"@],
{
    tera::Tera::default()
}

/// `tera::Tera::add_raw_template`.  Claimed: on success the template `content` is
/// held under `name`, the other templates and the escaping suffixes are kept; into
/// a `Tera` holding no template, a template made of well-shaped pieces (literal
/// text, `{{ key }}` tags and `{% if key %}` blocks, as tera's grammar reads them)
/// is added without error.  After a failure nothing is claimed of the `Tera`.
#[verifier::external_body]
pub(crate) fn add_template(t: &mut tera::Tera, name: &str, content: &str) -> (r: Result<(), tera::Error>)
    ensures
        r is Ok ==> engine_templates(*final(t)) == engine_templates(*old(t)).insert(name@, content@),
        r is Ok ==> escaping_suffixes(*final(t)) == escaping_suffixes(*old(t)),
        engine_templates(*old(t)).dom().is_empty() && pieces_template(content@) ==> r is Ok,
{
    t.add_raw_template(name, content)
}

/// `tera::Tera::render`.  Claimed, as tera's renderer shows, for a template held
/// under `name` whose name does not end with an escaping suffix and which is made
/// of well-shaped pieces naming values of `ctx`: the literal text is copied, each
/// `{{ key }}` tag is replaced by its text value or by the decimal digits of its
/// number (`Value::Number` is written with `{}`), and each `if` block by the
/// branch its boolean value selects.  Nothing more is claimed: other templates go
/// through tera's whole language, which can also read the environment (`get_env`).
#[verifier::external_body]
pub(crate) fn render_template(t: &tera::Tera, name: &str, ctx: &tera::Context) -> (r: Result<String, tera::Error>)
    ensures
        engine_templates(*t).dom().contains(name@) && !ends_with_any(name@, escaping_suffixes(*t))
            ==> renders_pieces(
                engine_templates(*t)[name@],
                context_texts(*ctx),
                context_flags(*ctx),
                context_numbers(*ctx),
                ok_text(r),
            ),
{
    t.render(name, ctx)
}

/// The message of a tera error (its `Display` text).  Nothing is claimed of it.
#[verifier::external_body]
pub(crate) fn error_message(e: &tera::Error) -> String {
    e.to_string()
}

} // verus!
