//! The template context, template selection and rendering.

use vstd::prelude::*;
use crate::config;
use crate::engine;
use crate::paths;
use crate::text;
use crate::unicode;
use crate::clock;

verus! {

/// Template rendering context: the user's configuration and fields computed from it.
#[derive(Debug)]
pub struct TemplateContext {
    pub plugin_name: String,
    pub plugin_description: String,
    pub author: String,
    pub org: String,
    pub plugin_type: String,
    pub has_wasm: bool,
    pub has_docker: bool,
    pub has_mock: bool,
    pub port_offset: u16,
    pub plugin_id: String,
    pub crate_name: String,
    pub current_year: String,
    pub today: String,
    pub pascal_case_name: String,
}

/// The upper-case form of one character, as `char::to_uppercase` gives it.
pub open spec fn upper_of(c: char) -> Seq<char> {
    if text::is_ascii_char(c) {
        seq![text::ascii_upper(c)]
    } else {
        unicode::unicode_uppercase(c)
    }
}

/// A word with its first character in upper case.
pub open spec fn capitalized(w: Seq<char>) -> Seq<char> {
    if w.len() == 0 {
        w
    } else {
        upper_of(w[0]) + w.drop_first()
    }
}

/// The pieces, one after another.
pub open spec fn concat_all(ps: Seq<Seq<char>>) -> Seq<char>
    decreases ps.len(),
{
    if ps.len() == 0 {
        seq![]
    } else {
        concat_all(ps.drop_last()) + ps.last()
    }
}

/// PascalCase of a kebab-case name: the pieces between `-`, each capitalised,
/// joined with nothing between them.
pub open spec fn pascal_case(name: Seq<char>) -> Seq<char> {
    concat_all(text::split_on(name, '-').map_values(|w: Seq<char>| capitalized(w)))
}

/// The plugin id: organisation, `-`, name.
pub open spec fn plugin_id_of(org: Seq<char>, name: Seq<char>) -> Seq<char> {
    org + seq!['-'] + name
}

/// The crate name: the plugin name with `-` turned into `_`.
pub open spec fn crate_name_of(name: Seq<char>) -> Seq<char> {
    text::replace_char(name, '-', '_')
}

/// The year of a `YYYY-MM-DD` date: what precedes its first `-` (all of it if none).
pub open spec fn year_of(date: Seq<char>) -> Seq<char> {
    match text::index_from(date, '-', 0) {
        Some(i) => date.take(i),
        None => date,
    }
}

impl TemplateContext {
    /// Whether this context holds `config`'s values and the fields computed from
    /// them, with the given dates and port offset.
    pub open spec fn describes(
        &self,
        config: &config::ProjectConfig,
        today: Seq<char>,
        current_year: Seq<char>,
        port_offset: u16,
    ) -> bool {
        &&& self.plugin_name@ == config.name@
        &&& self.plugin_description@ == config.description@
        &&& self.author@ == config.author@
        &&& self.org@ == config.org@
        &&& self.plugin_type@ == config::plugin_type_name(config.plugin_type)
        &&& self.has_wasm == config.has_wasm
        &&& self.has_docker == config.has_docker
        &&& self.has_mock == config.has_mock
        &&& self.port_offset == port_offset
        &&& self.plugin_id@ == plugin_id_of(config.org@, config.name@)
        &&& self.crate_name@ == crate_name_of(config.name@)
        &&& self.current_year@ == current_year
        &&& self.today@ == today
        &&& self.pascal_case_name@ == pascal_case(config.name@)
    }

    /// Build the context from a configuration and given dates (port offset 0).
    pub fn from_config_dated(config: &config::ProjectConfig, today: String, current_year: String) -> (r: Self)
        ensures
            r.describes(config, today@, current_year@, 0),
    {
        let name = text::chars_of(config.name.as_str());
        let org = text::chars_of(config.org.as_str());
        let mut id = org.clone();
        id.push('-');
        let id = text::concat_chars(&id, &name);
        assert(id@ =~= plugin_id_of(config.org@, config.name@));
        let crate_chars = text::replace_char_chars(&name, '-', '_');
        let pascal = pascal_case_chars(&name);
        TemplateContext {
            plugin_name: config.name.clone(),
            plugin_description: config.description.clone(),
            author: config.author.clone(),
            org: config.org.clone(),
            plugin_type: config.plugin_type.name(),
            has_wasm: config.has_wasm,
            has_docker: config.has_docker,
            has_mock: config.has_mock,
            port_offset: 0,
            plugin_id: text::string_from_chars(&id),
            crate_name: text::string_from_chars(&crate_chars),
            current_year,
            today,
            pascal_case_name: text::string_from_chars(&pascal),
        }
    }

    /// Build the context from a configuration, dated today (UTC).
    pub fn from_config(config: &config::ProjectConfig) -> (r: Self)
        ensures
            r.describes(config, r.today@, r.current_year@, 0),
            clock::date_text(r.today@),
            clock::year_text(r.current_year@),
    {
        let today = clock::utc_now_formatted("%Y-%m-%d");
        let year = clock::utc_now_formatted("%Y");
        Self::from_config_dated(config, today, year)
    }

    /// Keep the dates of an existing project: when `plugin.json` records an
    /// `info.updated` date, it becomes `today`, and its year `current_year`, so that
    /// updates do not churn dates.  Without one the context is unchanged.
    pub fn apply_dates_from_existing_plugin_json(&mut self, updated: Option<&str>)
        ensures
            match updated {
                Some(u) => final(self).today@ == u@ && final(self).current_year@ == year_of(u@),
                None => final(self).today@ == old(self).today@ && final(self).current_year@
                    == old(self).current_year@,
            },
            final(self).plugin_name == old(self).plugin_name,
            final(self).plugin_description == old(self).plugin_description,
            final(self).author == old(self).author,
            final(self).org == old(self).org,
            final(self).plugin_type == old(self).plugin_type,
            final(self).has_wasm == old(self).has_wasm,
            final(self).has_docker == old(self).has_docker,
            final(self).has_mock == old(self).has_mock,
            final(self).port_offset == old(self).port_offset,
            final(self).plugin_id == old(self).plugin_id,
            final(self).crate_name == old(self).crate_name,
            final(self).pascal_case_name == old(self).pascal_case_name,
    {
        if let Some(u) = updated {
            let uc = text::chars_of(u);
            let year = match text::find_char(&uc, '-') {
                Some(i) => text::slice_chars(&uc, 0, i),
                None => uc.clone(),
            };
            assert(year@ =~= year_of(u@));
            self.today = String::from_str(u);
            self.current_year = text::string_from_chars(&year);
        }
    }

    /// The tera context holding this context's fields under their names.
    pub fn to_tera_context(&self) -> (ctx: tera::Context)
        ensures
            engine::context_texts(ctx) == map![
                "plugin_name"@ => self.plugin_name@,
                "plugin_description"@ => self.plugin_description@,
                "author"@ => self.author@,
                "org"@ => self.org@,
                "plugin_type"@ => self.plugin_type@,
                "plugin_id"@ => self.plugin_id@,
                "crate_name"@ => self.crate_name@,
                "current_year"@ => self.current_year@,
                "today"@ => self.today@,
                "pascal_case_name"@ => self.pascal_case_name@
            ],
            engine::context_flags(ctx) == map![
                "has_wasm"@ => self.has_wasm,
                "has_docker"@ => self.has_docker,
                "has_mock"@ => self.has_mock
            ],
            engine::context_numbers(ctx) == map!["port_offset"@ => self.port_offset as int],
    {
        proof {
        reveal_strlit("plugin_name");
        reveal_strlit("plugin_description");
        reveal_strlit("author");
        reveal_strlit("org");
        reveal_strlit("plugin_type");
        reveal_strlit("plugin_id");
        reveal_strlit("crate_name");
        reveal_strlit("current_year");
        reveal_strlit("today");
        reveal_strlit("pascal_case_name");
        reveal_strlit("has_wasm");
        reveal_strlit("has_docker");
        reveal_strlit("has_mock");
        reveal_strlit("port_offset");
        assert("plugin_name"@.len() == 11 && "plugin_name"@[0] == 'p' && "plugin_name"@[10] == 'e');
        assert("plugin_description"@.len() == 18 && "plugin_description"@[0] == 'p' && "plugin_description"@[17] == 'n');
        assert("author"@.len() == 6 && "author"@[0] == 'a' && "author"@[5] == 'r');
        assert("org"@.len() == 3 && "org"@[0] == 'o' && "org"@[2] == 'g');
        assert("plugin_type"@.len() == 11 && "plugin_type"@[0] == 'p' && "plugin_type"@[10] == 'e');
        assert("plugin_id"@.len() == 9 && "plugin_id"@[0] == 'p' && "plugin_id"@[8] == 'd');
        assert("crate_name"@.len() == 10 && "crate_name"@[0] == 'c' && "crate_name"@[9] == 'e');
        assert("current_year"@.len() == 12 && "current_year"@[0] == 'c' && "current_year"@[11] == 'r');
        assert("today"@.len() == 5 && "today"@[0] == 't' && "today"@[4] == 'y');
        assert("pascal_case_name"@.len() == 16 && "pascal_case_name"@[0] == 'p' && "pascal_case_name"@[15] == 'e');
        assert("has_wasm"@.len() == 8 && "has_wasm"@[0] == 'h' && "has_wasm"@[7] == 'm');
        assert("has_docker"@.len() == 10 && "has_docker"@[0] == 'h' && "has_docker"@[9] == 'r');
        assert("has_mock"@.len() == 8 && "has_mock"@[0] == 'h' && "has_mock"@[7] == 'k');
        assert("port_offset"@.len() == 11 && "port_offset"@[0] == 'p' && "port_offset"@[10] == 't');
        }
        let mut ctx = engine::new_context();
        engine::insert_flag(&mut ctx, "has_wasm", self.has_wasm);
        engine::insert_flag(&mut ctx, "has_docker", self.has_docker);
        engine::insert_flag(&mut ctx, "has_mock", self.has_mock);
        let ghost f3 = engine::context_flags(ctx);
        proof {
            assert(f3 =~= map![
                "has_wasm"@ => self.has_wasm,
                "has_docker"@ => self.has_docker,
                "has_mock"@ => self.has_mock
            ]);
            assert(!f3.dom().contains("port_offset"@));
            assert(f3.remove("port_offset"@) =~= f3);
        }
        engine::insert_number(&mut ctx, "port_offset", self.port_offset);
        proof {
            assert(engine::context_texts(ctx) =~= Map::<Seq<char>, Seq<char>>::empty());
            assert(engine::context_flags(ctx) =~= map![
                "has_wasm"@ => self.has_wasm,
                "has_docker"@ => self.has_docker,
                "has_mock"@ => self.has_mock
            ]);
            assert(engine::context_numbers(ctx) =~= map!["port_offset"@ => self.port_offset as int]);
        }
        let ghost flags = engine::context_flags(ctx);
        let ghost numbers = engine::context_numbers(ctx);
        engine::insert_text(&mut ctx, "plugin_name", self.plugin_name.as_str());
        engine::insert_text(&mut ctx, "plugin_description", self.plugin_description.as_str());
        engine::insert_text(&mut ctx, "author", self.author.as_str());
        engine::insert_text(&mut ctx, "org", self.org.as_str());
        engine::insert_text(&mut ctx, "plugin_type", self.plugin_type.as_str());
        engine::insert_text(&mut ctx, "plugin_id", self.plugin_id.as_str());
        engine::insert_text(&mut ctx, "crate_name", self.crate_name.as_str());
        engine::insert_text(&mut ctx, "current_year", self.current_year.as_str());
        engine::insert_text(&mut ctx, "today", self.today.as_str());
        engine::insert_text(&mut ctx, "pascal_case_name", self.pascal_case_name.as_str());
        proof {
            assert(!flags.dom().contains("plugin_name"@));
            assert(!flags.dom().contains("plugin_description"@));
            assert(!flags.dom().contains("author"@));
            assert(!flags.dom().contains("org"@));
            assert(!flags.dom().contains("plugin_type"@));
            assert(!flags.dom().contains("plugin_id"@));
            assert(!flags.dom().contains("crate_name"@));
            assert(!flags.dom().contains("current_year"@));
            assert(!flags.dom().contains("today"@));
            assert(!flags.dom().contains("pascal_case_name"@));
            assert(engine::context_flags(ctx) =~= flags);
            assert(!numbers.dom().contains("plugin_name"@));
            assert(!numbers.dom().contains("plugin_description"@));
            assert(!numbers.dom().contains("author"@));
            assert(!numbers.dom().contains("org"@));
            assert(!numbers.dom().contains("plugin_type"@));
            assert(!numbers.dom().contains("plugin_id"@));
            assert(!numbers.dom().contains("crate_name"@));
            assert(!numbers.dom().contains("current_year"@));
            assert(!numbers.dom().contains("today"@));
            assert(!numbers.dom().contains("pascal_case_name"@));
            assert(engine::context_numbers(ctx) =~= numbers);
            assert(engine::context_texts(ctx) =~= map![
                "plugin_name"@ => self.plugin_name@,
                "plugin_description"@ => self.plugin_description@,
                "author"@ => self.author@,
                "org"@ => self.org@,
                "plugin_type"@ => self.plugin_type@,
                "plugin_id"@ => self.plugin_id@,
                "crate_name"@ => self.crate_name@,
                "current_year"@ => self.current_year@,
                "today"@ => self.today@,
                "pascal_case_name"@ => self.pascal_case_name@
            ]);
        }
        ctx
    }
}

/// The PascalCase form of a kebab-case name.
pub fn pascal_case_chars(name: &Vec<char>) -> (r: Vec<char>)
    ensures
        r@ == pascal_case(name@),
{
    let ghost cap = |w: Seq<char>| capitalized(w);
    let mut out: Vec<char> = Vec::new();
    let mut at_start = true;
    let mut i: usize = 0;
    proof {
        let e = Seq::<char>::empty();
        assert(name@.take(0) =~= e);
        assert(text::split_on(e, '-') == seq![e]);
        assert(seq![e].map_values(cap) =~= seq![e]);
        assert(seq![e].drop_last() =~= Seq::<Seq<char>>::empty());
        assert(concat_all(Seq::<Seq<char>>::empty()) =~= e);
        assert(concat_all(seq![e]) =~= e);
    }
    while i < name.len()
        invariant
            i <= name.len(),
            cap == (|w: Seq<char>| capitalized(w)),
            out@ == concat_all(text::split_on(name@.take(i as int), '-').map_values(cap)),
            at_start == (text::split_on(name@.take(i as int), '-').last().len() == 0),
        decreases name.len() - i,
    {
        let ghost prefix = name@.take(i as int);
        let ghost ps = text::split_on(prefix, '-');
        let c = name[i];
        proof {
            assert(name@.take(i + 1) =~= prefix.push(c));
            text::lemma_split_on_push(prefix, '-', c);
            text::lemma_split_on_len(prefix, '-');
            assert(ps.map_values(cap) =~= ps.drop_last().map_values(cap).push(cap(ps.last())));
            lemma_concat_all_push(ps.drop_last().map_values(cap), cap(ps.last()));
        }
        if c == '-' {
            proof {
                let qs = ps.push(Seq::<char>::empty());
                assert(qs.map_values(cap) =~= ps.map_values(cap).push(Seq::<char>::empty()));
                lemma_concat_all_push(ps.map_values(cap), Seq::<char>::empty());
                assert(concat_all(qs.map_values(cap)) =~= concat_all(ps.map_values(cap)));
            }
            at_start = true;
        } else {
            let ghost w = ps.last();
            let ghost qs = ps.update(ps.len() - 1, w.push(c));
            proof {
                assert(qs.map_values(cap) =~= ps.drop_last().map_values(cap).push(cap(w.push(c))));
                lemma_concat_all_push(ps.drop_last().map_values(cap), cap(w.push(c)));
            }
            if at_start {
                let up = if is_ascii(c) {
                    let mut v: Vec<char> = Vec::new();
                    v.push(to_ascii_uppercase(c));
                    v
                } else {
                    unicode::char_to_uppercase(c)
                };
                assert(up@ =~= upper_of(c));
                proof {
                    assert(w.push(c) =~= seq![c]);
                    assert(cap(w.push(c)) =~= upper_of(c));
                    assert(cap(w) =~= Seq::<char>::empty());
                }
                let ghost before = out@;
                let mut k: usize = 0;
                while k < up.len()
                    invariant
                        k <= up.len(),
                        out@ == before + up@.take(k as int),
                    decreases up.len() - k,
                {
                    out.push(up[k]);
                    assert(before + up@.take(k + 1) =~= (before + up@.take(k as int)).push(up@[k as int]));
                    k += 1;
                }
                assert(up@.take(up.len() as int) =~= up@);
                proof {
                    assert(before == concat_all(ps.drop_last().map_values(cap)) + cap(w));
                    assert(out@ =~= concat_all(qs.map_values(cap)));
                }
            } else {
                proof {
                    assert(cap(w.push(c)) =~= cap(w).push(c));
                    assert(concat_all(qs.map_values(cap)) =~= concat_all(ps.map_values(cap)).push(c));
                }
                out.push(c);
            }
            at_start = false;
        }
        i += 1;
    }
    assert(name@.take(name.len() as int) =~= name@);
    out
}

proof fn lemma_concat_all_push(ps: Seq<Seq<char>>, w: Seq<char>)
    ensures
        concat_all(ps.push(w)) == concat_all(ps) + w,
{
    assert(ps.push(w).drop_last() =~= ps);
}

fn is_ascii(c: char) -> (r: bool)
    ensures
        r == text::is_ascii_char(c),
{
    c <= '\u{7f}'
}

// ---------------------------------------------------------------------------
// Which files are rendered, and rendering
// ---------------------------------------------------------------------------

/// Why a template could not be turned into output.
#[derive(Debug, Clone, PartialEq, Eq)]
pub enum TemplateError {
    /// A `.tera` file that is not valid UTF-8.
    NotUtf8,
    /// Tera refused to parse the template (its message).
    Parse(String),
    /// Tera failed to render the template (its message).
    Render(String),
}

/// Extensions of files copied as they are, never rendered.
pub open spec fn binary_extensions() -> Seq<Seq<char>> {
    seq!["svg"@, "png"@, "jpg"@, "jpeg"@, "gif"@, "ico"@, "woff"@, "woff2"@, "ttf"@, "eot"@]
}

/// Whether the path's extension, lower-cased, is one of the binary ones.
pub open spec fn is_binary(rel: Seq<char>) -> bool {
    match paths::extension(rel) {
        Some(e) => binary_extensions().contains(config::lowercase(e)),
        None => false,
    }
}

/// Whether a template file is rendered by tera: a `.tera` file that is not binary.
pub open spec fn is_rendered(rel: Seq<char>) -> bool {
    !is_binary(rel) && paths::extension(rel) == Some("tera"@)
}

/// Whether `rel` has a binary extension (any letter case).
pub fn is_binary_path(rel: &str) -> (r: bool)
    ensures
        r == is_binary(rel@),
{
    let rc = text::chars_of(rel);
    match paths::path_extension(&rc) {
        None => false,
        Some(e) => {
            let es = text::string_from_chars(&e);
            let lowered = unicode::str_to_lowercase(es.as_str());
            let l = text::chars_of(lowered.as_str());
            assert(l@ == config::lowercase(e@));
            let candidates: [&'static str; 10] = [
                "svg",
                "png",
                "jpg",
                "jpeg",
                "gif",
                "ico",
                "woff",
                "woff2",
                "ttf",
                "eot",
            ];
            let ghost known = binary_extensions();
            assert(candidates@.map_values(|c: &str| c@) =~= known);
            let mut i: usize = 0;
            while i < 10
                invariant
                    i <= 10,
                    known == binary_extensions(),
                    candidates@.map_values(|c: &str| c@) == known,
                    forall|j: int| 0 <= j < i ==> known[j] != l@,
                    l@ == config::lowercase(e@),
                    paths::extension(rel@) == Some(e@),
                decreases 10 - i,
            {
                let c = text::chars_of(candidates[i]);
                assert(known[i as int] == candidates@[i as int]@);
                if text::chars_eq(&c, &l) {
                    return true;
                }
                i += 1;
            }
            assert(!known.contains(l@));
            false
        },
    }
}

/// The text of a successful render.
pub open spec fn rendered_text(r: Result<String, TemplateError>) -> Option<Seq<char>> {
    match r {
        Ok(s) => Some(s@),
        Err(_) => None,
    }
}

/// The text fields of a context, by the names templates use for them.
pub open spec fn text_fields(c: TemplateContext) -> Map<Seq<char>, Seq<char>> {
    map![
        "plugin_name"@ => c.plugin_name@,
        "plugin_description"@ => c.plugin_description@,
        "author"@ => c.author@,
        "org"@ => c.org@,
        "plugin_type"@ => c.plugin_type@,
        "plugin_id"@ => c.plugin_id@,
        "crate_name"@ => c.crate_name@,
        "current_year"@ => c.current_year@,
        "today"@ => c.today@,
        "pascal_case_name"@ => c.pascal_case_name@
    ]
}

/// The boolean fields of a context, by the names templates use for them.
pub open spec fn flag_fields(c: TemplateContext) -> Map<Seq<char>, bool> {
    map![
        "has_wasm"@ => c.has_wasm,
        "has_docker"@ => c.has_docker,
        "has_mock"@ => c.has_mock
    ]
}

/// The name a template is rendered under: one that no escaping suffix ends.
pub open spec fn inline_name() -> Seq<char> {
    "__inline__"@
}

/// The number fields of a context, by the names templates use for them.
pub open spec fn number_fields(c: TemplateContext) -> Map<Seq<char>, int> {
    map!["port_offset"@ => c.port_offset as int]
}

/// Render a template text with the context.  A template made of literal text,
/// `{{ name }}` tags for text and number fields and `{% if flag %}` blocks around
/// literal text parses, and renders to the text with each tag replaced by the
/// field's value (a number in decimal digits) and each block by the branch the
/// flag selects; literal text comes back as it is.  What tera makes of other templates is not stated; a failure is
/// reported with tera's message, as a parse or a render failure.
pub fn render_string(template: &str, context: &TemplateContext) -> (r: Result<String, TemplateError>)
    ensures
        r is Err ==> (r matches Err(TemplateError::Parse(_)) || r matches Err(TemplateError::Render(_))),
        engine::pieces_template(template@) ==> !(r matches Err(TemplateError::Parse(_))),
        engine::literal_text(template@) ==> rendered_text(r) == Some(template@),
        engine::renders_pieces(
            template@,
            text_fields(*context),
            flag_fields(*context),
            number_fields(*context),
            rendered_text(r),
        ),
{
    let mut tera = engine::new_engine();
    let name = "__inline__";
    match engine::add_template(&mut tera, name, template) {
        Ok(()) => {},
        Err(e) => {
            let r = Err(TemplateError::Parse(engine::error_message(&e)));
            proof {
                lemma_literal_is_pieces(template@);
                lemma_unparsed_renders_nothing_stated(
                    template@,
                    text_fields(*context),
                    flag_fields(*context),
                    number_fields(*context),
                    rendered_text(r),
                );
            }
            return r;
        },
    }
    let ctx = context.to_tera_context();
    proof {
        assert(engine::context_texts(ctx) == text_fields(*context));
        assert(engine::context_flags(ctx) == flag_fields(*context));
        assert(engine::context_numbers(ctx) == number_fields(*context));
        reveal_strlit("__inline__");
        reveal_strlit(".html");
        reveal_strlit(".htm");
        reveal_strlit(".xml");
        assert(engine::engine_templates(tera)[name@] == template@);
        let sfx = engine::escaping_suffixes(tera);
        assert forall|i: int| 0 <= i < sfx.len() && name@.len() >= sfx[i].len() implies #[trigger] name@.skip(
            name@.len() - sfx[i].len(),
        ) != sfx[i] by {
            let k = name@.len() - sfx[i].len();
            assert(name@.skip(k)[0] == name@[k]);
            assert(sfx[i][0] == '.');
        }
    }
    let res = engine::render_template(&tera, name, &ctx);
    let r = match res {
        Ok(s) => Ok(s),
        Err(e) => Err(TemplateError::Render(engine::error_message(&e))),
    };
    proof {
        assert(engine::ok_text(res) == rendered_text(r));
        lemma_literal_text_renders(
            template@,
            text_fields(*context),
            flag_fields(*context),
            number_fields(*context),
            rendered_text(r),
        );
    }
    r
}

/// Literal text is one well-shaped piece.
proof fn lemma_literal_is_pieces(t: Seq<char>)
    ensures
        engine::literal_text(t) ==> engine::pieces_template(t),
{
    if engine::literal_text(t) {
        let ps = seq![engine::TemplatePiece::Text(t)];
        let e = Seq::<engine::TemplatePiece>::empty();
        assert(ps.drop_last() =~= e);
        assert(engine::pieces_source(e) == Seq::<char>::empty());
        assert(ps.last() == engine::TemplatePiece::Text(t));
        assert(engine::pieces_source(ps) =~= t);
        assert(forall|i: int| 0 <= i < ps.len() ==> engine::piece_shape(#[trigger] ps[i]));
    }
}

/// A text that is not made of well-shaped pieces is made of no pieces whose
/// names are present either, so the rendering claim says nothing of it.
proof fn lemma_unparsed_renders_nothing_stated(
    t: Seq<char>,
    texts: Map<Seq<char>, Seq<char>>,
    flags: Map<Seq<char>, bool>,
    numbers: Map<Seq<char>, int>,
    out: Option<Seq<char>>,
)
    requires
        !engine::pieces_template(t),
    ensures
        engine::renders_pieces(t, texts, flags, numbers, out),
{
    assert forall|ps: Seq<engine::TemplatePiece>|
        #[trigger] engine::pieces_source(ps) == t && engine::pieces_ok(ps, texts, flags, numbers) implies out == Some(
            engine::pieces_output(ps, texts, flags, numbers),
        ) by {
        assert(forall|i: int| 0 <= i < ps.len() ==> engine::piece_shape(#[trigger] ps[i]));
    }
}

/// Text without `{` is one literal piece, so it renders to itself.
proof fn lemma_literal_text_renders(
    t: Seq<char>,
    texts: Map<Seq<char>, Seq<char>>,
    flags: Map<Seq<char>, bool>,
    numbers: Map<Seq<char>, int>,
    out: Option<Seq<char>>,
)
    requires
        engine::renders_pieces(t, texts, flags, numbers, out),
    ensures
        engine::literal_text(t) ==> out == Some(t),
{
    if engine::literal_text(t) {
        let ps = seq![engine::TemplatePiece::Text(t)];
        let e = Seq::<engine::TemplatePiece>::empty();
        assert(ps.drop_last() =~= e);
        assert(engine::pieces_source(e) == Seq::<char>::empty());
        assert(engine::pieces_output(e, texts, flags, numbers) == Seq::<char>::empty());
        assert(ps.last() == engine::TemplatePiece::Text(t));
        assert(engine::pieces_source(ps) =~= t);
        assert(engine::pieces_output(ps, texts, flags, numbers) =~= t);
        assert(engine::pieces_ok(ps, texts, flags, numbers));
    }
}

/// The text that the bytes of a successful render encode.
pub open spec fn rendered_bytes_text(r: Result<Vec<u8>, TemplateError>) -> Option<Seq<char>> {
    match r {
        Ok(b) => Some(vstd::utf8::decode_utf8(b@)),
        Err(_) => None,
    }
}

/// The bytes a template file turns into: a `.tera` file that is not binary is
/// rendered (it must be UTF-8) as `render_string` renders its text, and the result
/// encoded as UTF-8; any other file is copied as it is.
pub fn render_to_bytes(contents: &[u8], rel_path: &str, context: &TemplateContext) -> (r: Result<Vec<u8>, TemplateError>)
    ensures
        !is_rendered(rel_path@) ==> (r matches Ok(b) && b@ == contents@),
        is_rendered(rel_path@) && !vstd::utf8::valid_utf8(contents@) ==> r == Err::<Vec<u8>, TemplateError>(TemplateError::NotUtf8),
        is_rendered(rel_path@) && vstd::utf8::valid_utf8(contents@) ==> (r is Ok || r matches Err(
            TemplateError::Parse(_),
        ) || r matches Err(TemplateError::Render(_))),
        is_rendered(rel_path@) && vstd::utf8::valid_utf8(contents@) && engine::pieces_template(
            vstd::utf8::decode_utf8(contents@),
        ) ==> !(r matches Err(TemplateError::Parse(_))),
        is_rendered(rel_path@) && vstd::utf8::valid_utf8(contents@) && engine::literal_text(
            vstd::utf8::decode_utf8(contents@),
        ) ==> (r matches Ok(b) && b@ == contents@),
        is_rendered(rel_path@) && vstd::utf8::valid_utf8(contents@) ==> engine::renders_pieces(
            vstd::utf8::decode_utf8(contents@),
            text_fields(*context),
            flag_fields(*context),
            number_fields(*context),
            rendered_bytes_text(r),
        ),
        is_rendered(rel_path@) ==> (r matches Ok(b) ==> vstd::utf8::valid_utf8(b@)),
{
    let rc = text::chars_of(rel_path);
    if is_binary_path(rel_path) || !paths::has_extension(&rc, "tera") {
        return Ok(vstd::slice::slice_to_vec(contents));
    }
    match unicode::utf8_text(contents) {
        None => Err(TemplateError::NotUtf8),
        Some(body) => match render_string(body.as_str(), context) {
            Ok(rendered) => {
                let out = unicode::text_bytes(rendered);
                proof {
                    vstd::utf8::encode_utf8_decode_utf8(rendered@);
                    vstd::utf8::encode_utf8_valid_utf8(rendered@);
                    vstd::utf8::decode_utf8_encode_utf8(contents@);
                }
                Ok(out)
            },
            Err(e) => Err(e),
        },
    }
}

/// A file embedded in the tool: its path below the templates directory (with `/`
/// between components) and its contents.
#[derive(Debug)]
pub struct EmbeddedFile {
    pub path: String,
    pub contents: Vec<u8>,
}

pub open spec fn embedded_view(tree: Seq<EmbeddedFile>) -> Seq<(Seq<char>, Seq<u8>)> {
    tree.map_values(|f: EmbeddedFile| (f.path@, f.contents@))
}

/// The files below directory `dir`, in order, each with its path relative to `dir`.
pub open spec fn files_under(tree: Seq<(Seq<char>, Seq<u8>)>, dir: Seq<char>) -> Seq<(Seq<u8>, Seq<char>)>
    decreases tree.len(),
{
    if tree.len() == 0 {
        seq![]
    } else {
        let rest = files_under(tree.drop_last(), dir);
        let (p, c) = tree.last();
        if text::has_prefix(p, dir.push('/')) {
            rest.push((c, p.skip(dir.len() as int + 1)))
        } else {
            rest
        }
    }
}

/// The files of each directory of the stack in turn.
pub open spec fn collected_files(tree: Seq<(Seq<char>, Seq<u8>)>, dirs: Seq<Seq<char>>) -> Seq<(Seq<u8>, Seq<char>)>
    decreases dirs.len(),
{
    if dirs.len() == 0 {
        seq![]
    } else {
        collected_files(tree, dirs.drop_last()) + files_under(tree, dirs.last())
    }
}

pub open spec fn template_files_view(v: Seq<(Vec<u8>, String)>) -> Seq<(Seq<u8>, Seq<char>)> {
    v.map_values(|f: (Vec<u8>, String)| (f.0@, f.1@))
}

/// The template files of the directory stack (e.g. `base`, `panel`, `wasm`), taken
/// from the embedded files in their walk order: `(contents, path within its
/// directory)`, directory by directory.
pub fn collect_template_files(tree: &Vec<EmbeddedFile>, dirs: &Vec<&str>) -> (r: Vec<(Vec<u8>, String)>)
    ensures
        template_files_view(r@) == collected_files(
            embedded_view(tree@),
            config::str_views(dirs@),
        ),
{
    let ghost tv = embedded_view(tree@);
    let ghost dv = config::str_views(dirs@);
    let mut out: Vec<(Vec<u8>, String)> = Vec::new();
    let mut d: usize = 0;
    proof {
        assert(dv.take(0) =~= Seq::<Seq<char>>::empty());
    }
    while d < dirs.len()
        invariant
            d <= dirs.len(),
            tv == embedded_view(tree@),
            dv == config::str_views(dirs@),
            template_files_view(out@) == collected_files(tv, dv.take(d as int)),
        decreases dirs.len() - d,
    {
        let mut prefix = text::chars_of(dirs[d]);
        prefix.push('/');
        let ghost dir = dv[d as int];
        let ghost before = template_files_view(out@);
        let mut i: usize = 0;
        proof {
            assert(tv.take(0) =~= Seq::<(Seq<char>, Seq<u8>)>::empty());
            assert(before + files_under(tv.take(0), dir) =~= before);
        }
        while i < tree.len()
            invariant
                i <= tree.len(),
                tv == embedded_view(tree@),
                prefix@ == dir.push('/'),
                template_files_view(out@) == before + files_under(tv.take(i as int), dir),
            decreases tree.len() - i,
        {
            let path = text::chars_of(tree[i].path.as_str());
            proof {
                assert(tv.take(i + 1).drop_last() =~= tv.take(i as int));
                assert(tv.take(i + 1).last() == (path@, tree@[i as int].contents@));
            }
            if text::starts_with(&path, &prefix) {
                let rel = text::slice_chars(&path, prefix.len(), path.len());
                assert(rel@ =~= path@.skip(dir.len() as int + 1));
                let ghost o = template_files_view(out@);
                out.push((tree[i].contents.clone(), text::string_from_chars(&rel)));
                assert(template_files_view(out@) =~= o.push((tree@[i as int].contents@, rel@)));
            }
            i += 1;
        }
        proof {
            assert(tv.take(tree.len() as int) =~= tv);
            assert(dv.take(d + 1).drop_last() =~= dv.take(d as int));
            assert(dv.take(d + 1).last() == dir);
        }
        d += 1;
    }
    assert(dv.take(dirs.len() as int) =~= dv);
    out
}

fn to_ascii_uppercase(c: char) -> (r: char)
    ensures
        r == text::ascii_upper(c),
{
    if 'a' <= c && c <= 'z' {
        let u: u32 = (c as u32) - 32;
        let b: u8 = u as u8;
        b as char
    } else {
        c
    }
}

} // verus!
