//! Incremental template updates for existing projects: which files are managed,
//! how a project's configuration is recovered from its files, and the plan of
//! writes that an update makes.

use vstd::prelude::*;
use crate::config;
use crate::paths;
use crate::text;
use crate::unicode;

verus! {

/// Marker for JS/TS/TSX/RS/MJS files (must match templates).
pub const MANAGED_MARKER_JS: &'static str = "// @managed by create-grafana-plugin — do not edit";

/// Marker for YAML, `.gitignore`, Dockerfiles, etc.
pub const MANAGED_MARKER_HASH: &'static str = "# @managed by create-grafana-plugin — do not edit";

/// Marker for Markdown files.
pub const MANAGED_MARKER_HTML: &'static str = "<!-- @managed by create-grafana-plugin — do not edit -->";

/// How many leading lines are searched for a marker.
pub const MARKER_SEARCH_LINES: usize = 40;

/// The first `n` lines of `s` (all of them if there are fewer).
pub open spec fn leading_lines(s: Seq<char>, n: int) -> Seq<Seq<char>> {
    if n <= text::lines(s).len() {
        text::lines(s).take(n)
    } else {
        text::lines(s)
    }
}

/// The first line that is not blank once trimmed (and, when `skip_shebang`, does
/// not start with `#!`), trimmed.
pub open spec fn first_significant_line(ls: Seq<Seq<char>>, skip_shebang: bool) -> Option<
    Seq<char>,
>
    decreases ls.len(),
{
    if ls.len() == 0 {
        None
    } else {
        let t = text::trim(ls[0]);
        if t.len() == 0 || (skip_shebang && text::has_prefix(t, "#!"@)) {
            first_significant_line(ls.drop_first(), skip_shebang)
        } else {
            Some(t)
        }
    }
}

/// Whether the first significant line among the first 40 lines of `content` is
/// exactly `marker`.
pub open spec fn has_marker(content: Seq<char>, marker: Seq<char>, skip_shebang: bool) -> bool {
    first_significant_line(leading_lines(content, MARKER_SEARCH_LINES as int), skip_shebang)
        == Some(marker)
}

fn has_marker_chars(content: &str, marker: &str, skip_shebang: bool) -> (r: bool)
    ensures
        r == has_marker(content@, marker@, skip_shebang),
{
    let cs = text::chars_of(content);
    let m = text::chars_of(marker);
    let shebang = text::chars_of("#!");
    let ls = text::first_lines(&cs, MARKER_SEARCH_LINES);
    let ghost all = text::lines_view(ls@);
    assert(all == leading_lines(content@, MARKER_SEARCH_LINES as int));
    let mut i: usize = 0;
    assert(all.skip(0) =~= all);
    while i < ls.len()
        invariant
            i <= ls.len(),
            all == text::lines_view(ls@),
            all == leading_lines(content@, MARKER_SEARCH_LINES as int),
            first_significant_line(all, skip_shebang) == first_significant_line(
                all.skip(i as int),
                skip_shebang,
            ),
            shebang@ == "#!"@,
            m@ == marker@,
        decreases ls.len() - i,
    {
        let t = text::trim_chars(&ls[i]);
        assert(all.skip(i as int)[0] == ls@[i as int]@);
        assert(all.skip(i as int).drop_first() =~= all.skip(i + 1));
        let ghost rest = all.skip(i as int);
        assert(text::trim(rest[0]) == t@);
        if t.len() == 0 || (skip_shebang && text::starts_with(&t, &shebang)) {
            i += 1;
        } else {
            assert(first_significant_line(rest, skip_shebang) == Some(t@));
            return text::chars_eq(&t, &m);
        }
    }
    assert(all.skip(i as int).len() == 0);
    false
}

/// Whether a JS-like file carries the managed marker (a `#!` line may come first).
pub fn has_js_style_marker(content: &str) -> (r: bool)
    ensures
        r == has_marker(content@, MANAGED_MARKER_JS@, true),
{
    has_marker_chars(content, MANAGED_MARKER_JS, true)
}

/// Whether a file with `#` comments carries the managed marker.
pub fn has_hash_style_marker(content: &str) -> (r: bool)
    ensures
        r == has_marker(content@, MANAGED_MARKER_HASH@, false),
{
    has_marker_chars(content, MANAGED_MARKER_HASH, false)
}

/// Whether a Markdown file carries the managed marker.
pub fn has_html_style_marker(content: &str) -> (r: bool)
    ensures
        r == has_marker(content@, MANAGED_MARKER_HTML@, false),
{
    has_marker_chars(content, MANAGED_MARKER_HTML, false)
}


/// JSON outputs that cannot carry comments, matched by path relative to the
/// project root.
pub open spec fn known_managed_json_paths() -> Seq<Seq<char>> {
    seq!["plugin.json"@, "package.json"@, "tsconfig.json"@, "tsconfig.test.json"@, "biome.json"@]
}

/// Whether `rel` (with `\` read as `/`) is one of the known managed JSON files.
pub open spec fn is_known_json(rel: Seq<char>) -> bool {
    known_managed_json_paths().contains(text::replace_char(rel, '\\', '/'))
}

/// Whether `rel` names one of the managed JSON files, which carry no marker.
pub fn is_known_json_managed_path(rel: &str) -> (r: bool)
    ensures
        r == is_known_json(rel@),
{
    let n = paths::normalized_rel(rel);
    let nc = text::chars_of(n.as_str());
    let candidates: [&'static str; 5] = [
        "plugin.json",
        "package.json",
        "tsconfig.json",
        "tsconfig.test.json",
        "biome.json",
    ];
    let ghost known = known_managed_json_paths();
    assert(candidates@.map_values(|c: &str| c@) =~= known);
    let mut i: usize = 0;
    while i < 5
        invariant
            i <= 5,
            nc@ == text::replace_char(rel@, '\\', '/'),
            known == known_managed_json_paths(),
            candidates@.map_values(|c: &str| c@) == known,
            forall|j: int| 0 <= j < i ==> known[j] != nc@,
        decreases 5 - i,
    {
        let c = text::chars_of(candidates[i]);
        assert(known[i as int] == candidates@[i as int]@);
        if text::chars_eq(&c, &nc) {
            return true;
        }
        i += 1;
    }
    assert(!known.contains(nc@));
    false
}

/// The extensions whose files carry the `//` marker.
pub open spec fn js_like_extension(e: Seq<char>) -> bool {
    e == "ts"@ || e == "tsx"@ || e == "js"@ || e == "mjs"@ || e == "rs"@
}

/// Whether an existing file may be overwritten by an update: a known JSON file,
/// or a file whose first significant line is the marker for its kind.
pub open spec fn is_managed(rel: Seq<char>, content: Seq<char>) -> bool {
    if is_known_json(rel) {
        true
    } else {
        let ext = match paths::extension(rel) {
            Some(e) => e,
            None => Seq::<char>::empty(),
        };
        if js_like_extension(ext) {
            has_marker(content, MANAGED_MARKER_JS@, true)
        } else if ext == "yml"@ || ext == "yaml"@ {
            has_marker(content, MANAGED_MARKER_HASH@, false)
        } else if ext == "md"@ {
            has_marker(content, MANAGED_MARKER_HTML@, false)
        } else if paths::file_name(rel) == Some("Dockerfile"@) || paths::file_name(rel) == Some(
            ".gitignore"@,
        ) || text::has_suffix(text::replace_char(rel, '\\', '/'), "/ci.yml"@) {
            has_marker(content, MANAGED_MARKER_HASH@, false)
        } else {
            has_marker(content, MANAGED_MARKER_JS@, true) || has_marker(
                content,
                MANAGED_MARKER_HASH@,
                false,
            ) || has_marker(content, MANAGED_MARKER_HTML@, false)
        }
    }
}

fn eq_lit(v: &Vec<char>, lit: &str) -> (r: bool)
    ensures
        r == (v@ == lit@),
{
    let l = text::chars_of(lit);
    text::chars_eq(v, &l)
}

/// Whether the existing file at `rel` with text `content` is managed by the tool.
pub fn is_managed_existing_file(rel: &str, content: &str) -> (r: bool)
    ensures
        r == is_managed(rel@, content@),
{
    if is_known_json_managed_path(rel) {
        return true;
    }
    let rc = text::chars_of(rel);
    let ext = match paths::path_extension(&rc) {
        Some(e) => e,
        None => Vec::new(),
    };
    if eq_lit(&ext, "ts") || eq_lit(&ext, "tsx") || eq_lit(&ext, "js") || eq_lit(&ext, "mjs")
        || eq_lit(&ext, "rs") {
        has_js_style_marker(content)
    } else if eq_lit(&ext, "yml") || eq_lit(&ext, "yaml") {
        has_hash_style_marker(content)
    } else if eq_lit(&ext, "md") {
        has_html_style_marker(content)
    } else {
        let name = paths::path_file_name(&rc);
        let special = match &name {
            Some(n) => eq_lit(n, "Dockerfile") || eq_lit(n, ".gitignore"),
            None => false,
        };
        let normalized = text::replace_char_chars(&rc, '\\', '/');
        let ci = text::chars_of("/ci.yml");
        if special || text::ends_with(&normalized, &ci) {
            has_hash_style_marker(content)
        } else {
            has_js_style_marker(content) || has_hash_style_marker(content)
                || has_html_style_marker(content)
        }
    }
}


// ---------------------------------------------------------------------------
// Recovering the configuration of an existing project
// ---------------------------------------------------------------------------

/// Why the configuration of an existing project could not be recovered.
#[derive(Debug, Clone, PartialEq, Eq)]
pub enum UpdateError {
    /// `plugin.json` has no string `id`.
    MissingId,
    /// The plugin id is not of the form `org-name`.
    InvalidPluginId,
    /// `plugin.json` has no string `type`.
    MissingType,
    /// The plugin type is refused.
    Config(config::ConfigError),
    /// `plugin.json` is not valid JSON.
    InvalidJson,
}

pub open spec fn update_error_message(e: UpdateError) -> Seq<char> {
    match e {
        UpdateError::MissingId => "plugin.json: missing id"@,
        UpdateError::InvalidPluginId => "plugin id must be in the form org-name"@,
        UpdateError::MissingType => "plugin.json: missing type"@,
        UpdateError::Config(c) => config::config_error_message(c),
        UpdateError::InvalidJson => "Invalid JSON in plugin.json"@,
    }
}

impl UpdateError {
    /// The message shown to the user.
    pub fn message(&self) -> (r: String)
        ensures
            r@ == update_error_message(*self),
    {
        match self {
            UpdateError::MissingId => String::from_str("plugin.json: missing id"),
            UpdateError::InvalidPluginId => String::from_str("plugin id must be in the form org-name"),
            UpdateError::MissingType => String::from_str("plugin.json: missing type"),
            UpdateError::Config(c) => c.message(),
            UpdateError::InvalidJson => String::from_str("Invalid JSON in plugin.json"),
        }
    }
}

/// How a plugin id splits into organisation and name.  When the author URL's last
/// segment is a non-empty prefix of the id followed by `-`, that segment is the
/// organisation (so organisations may contain `-`); otherwise the id splits at its
/// first `-`.  Without any `-` there is no split.
pub open spec fn plugin_id_parts(id: Seq<char>, author_url: Option<Seq<char>>) -> Option<
    (Seq<char>, Seq<char>),
> {
    let by_url = match author_url {
        Some(u) => {
            let org = paths::after_last(u, '/');
            if org.len() > 0 && text::has_prefix(id, org.push('-')) {
                Some((org, id.skip(org.len() as int + 1)))
            } else {
                None
            }
        },
        None => None,
    };
    match by_url {
        Some(p) => Some(p),
        None => match text::index_from(id, '-', 0) {
            Some(i) => Some((id.take(i), id.skip(i + 1))),
            None => None,
        },
    }
}

/// Split a plugin id into `(org, name)`, guided by the author URL
/// (`https://github.com/{org}`) when there is one.
pub fn split_plugin_id(id: &str, author_url: Option<&str>) -> (r: Result<(String, String), UpdateError>)
    ensures
        match plugin_id_parts(id@, match author_url { Some(u) => Some(u@), None => None }) {
            Some((org, name)) => r matches Ok((o, n)) && o@ == org && n@ == name,
            None => r == Err::<(String, String), UpdateError>(UpdateError::InvalidPluginId),
        },
{
    let ic = text::chars_of(id);
    let ghost url_view = match author_url {
        Some(u) => Some(u@),
        None => None,
    };
    if let Some(url) = author_url {
        let uc = text::chars_of(url);
        let j = paths_after_last_slash(&uc);
        let org = text::slice_chars(&uc, j, uc.len());
        if org.len() > 0 {
            let mut prefix = org.clone();
            prefix.push('-');
            if text::starts_with(&ic, &prefix) {
                let name = text::slice_chars(&ic, org.len() + 1, ic.len());
                assert(name@ =~= id@.skip(org@.len() as int + 1));
                return Ok((text::string_from_chars(&org), text::string_from_chars(&name)));
            }
        }
    }
    match text::find_char(&ic, '-') {
        Some(k) => {
            let org = text::slice_chars(&ic, 0, k);
            let name = text::slice_chars(&ic, k + 1, ic.len());
            assert(org@ =~= id@.take(k as int));
            assert(name@ =~= id@.skip(k + 1));
            Ok((text::string_from_chars(&org), text::string_from_chars(&name)))
        },
        None => Err(UpdateError::InvalidPluginId),
    }
}

/// Index just after the last `/` of `s`.
fn paths_after_last_slash(s: &Vec<char>) -> (j: usize)
    ensures
        j <= s.len(),
        paths::after_last(s@, '/') == s@.subrange(j as int, s.len() as int),
{
    let mut j = s.len();
    while j > 0 && s[j - 1] != '/'
        invariant
            j <= s.len(),
            forall|k: int| j <= k < s.len() ==> s@[k] != '/',
        decreases j,
    {
        j -= 1;
    }
    proof {
        paths::lemma_after_last(s@, '/', j as int);
        assert(s@.skip(j as int) =~= s@.subrange(j as int, s.len() as int));
    }
    j
}

// ---------------------------------------------------------------------------
// Grafana port offset
// ---------------------------------------------------------------------------

/// The host port of a `- "HOST:3000"` entry (quotes optional), if the trimmed line
/// is one.
pub open spec fn grafana_host_port(t: Seq<char>) -> Option<u16> {
    let stripped = text::trim_char(
        text::trim_char(text::trim(text::trim_start_char(t, '-')), '"'),
        '\'',
    );
    if text::has_suffix(stripped, ":3000"@) {
        text::parse_u16(stripped.take(stripped.len() - 5))
    } else {
        None
    }
}

/// `a - b`, or 0 if that would be negative (`u16::saturating_sub`).
pub open spec fn saturating_sub(a: u16, b: u16) -> u16 {
    if a >= b {
        (a - b) as u16
    } else {
        0
    }
}

/// Scans compose-file lines: after a `grafana:` line, the first entry that maps a
/// host port to 3000 gives the offset `host - 3000` (0 if the host port is smaller);
/// an unindented line that is not blank, not a list entry and not a comment ends
/// the Grafana service and the scan gives 0, as does the end of the file.
pub open spec fn scan_port_offset(ls: Seq<Seq<char>>, in_grafana: bool) -> u16
    decreases ls.len(),
{
    if ls.len() == 0 {
        0
    } else {
        let line = ls[0];
        let t = text::trim(line);
        if text::has_prefix(t, "grafana:"@) {
            scan_port_offset(ls.drop_first(), true)
        } else if in_grafana && t.len() > 0 && !text::has_prefix(t, "-"@) && !text::has_prefix(
            t,
            "#"@,
        ) && !text::has_prefix(line, " "@) && !text::has_prefix(line, "\t"@) {
            0
        } else if in_grafana && grafana_host_port(t) is Some {
            saturating_sub(grafana_host_port(t)->0, 3000)
        } else {
            scan_port_offset(ls.drop_first(), in_grafana)
        }
    }
}

/// The offset of the Grafana host port from 3000 in a compose file's text.
pub open spec fn port_offset_of(compose: Seq<char>) -> u16 {
    scan_port_offset(text::lines(compose), false)
}

fn host_port_of(t: &Vec<char>) -> (r: Option<u16>)
    ensures
        r == grafana_host_port(t@),
{
    let a = text::trim_start_char_chars(t, '-');
    let b = text::trim_chars(&a);
    let c = text::trim_char_chars(&b, '"');
    let d = text::trim_char_chars(&c, '\'');
    let suffix = text::chars_of(":3000");
    if text::ends_with(&d, &suffix) {
        proof {
            reveal_strlit(":3000");
        }
        let host = text::slice_chars(&d, 0, d.len() - 5);
        assert(host@ =~= d@.take(d@.len() - 5));
        text::parse_u16_chars(&host)
    } else {
        None
    }
}

/// Infer the port offset from the text of `docker-compose.yml`: the Grafana host
/// port minus 3000, or 0 when none is found.
pub fn infer_port_offset(compose: &str) -> (r: u16)
    ensures
        r == port_offset_of(compose@),
{
    let cs = text::chars_of(compose);
    let ls = text::all_lines(&cs);
    let ghost all = text::lines_view(ls@);
    let grafana = text::chars_of("grafana:");
    let dash = text::chars_of("-");
    let hash = text::chars_of("#");
    let space = text::chars_of(" ");
    let tab = text::chars_of("\t");
    let mut in_grafana = false;
    let mut i: usize = 0;
    assert(all.skip(0) =~= all);
    while i < ls.len()
        invariant
            i <= ls.len(),
            all == text::lines_view(ls@),
            all == text::lines(compose@),
            scan_port_offset(all, false) == scan_port_offset(all.skip(i as int), in_grafana),
            grafana@ == "grafana:"@,
            dash@ == "-"@,
            hash@ == "#"@,
            space@ == " "@,
            tab@ == "\t"@,
        decreases ls.len() - i,
    {
        let line = &ls[i];
        let t = text::trim_chars(line);
        let ghost rest = all.skip(i as int);
        assert(rest[0] == line@);
        assert(rest.drop_first() =~= all.skip(i + 1));
        if text::starts_with(&t, &grafana) {
            in_grafana = true;
            i += 1;
        } else if in_grafana && t.len() > 0 && !text::starts_with(&t, &dash) && !text::starts_with(
            &t,
            &hash,
        ) && !text::starts_with(line, &space) && !text::starts_with(line, &tab) {
            return 0;
        } else {
            if in_grafana {
                match host_port_of(&t) {
                    Some(p) => {
                        return if p >= 3000 {
                            p - 3000
                        } else {
                            0
                        };
                    },
                    None => {},
                }
            }
            i += 1;
        }
    }
    assert(all.skip(i as int).len() == 0);
    0
}


// ---------------------------------------------------------------------------
// The plan of an update
// ---------------------------------------------------------------------------

/// One file an update considers: where it goes, and which template file (by index)
/// supplies its contents.
#[derive(Debug)]
pub struct PlannedFile {
    pub output: String,
    pub source: usize,
}

pub open spec fn plan_view(plan: Seq<PlannedFile>) -> Seq<(Seq<char>, int)> {
    plan.map_values(|p: PlannedFile| (p.output@, p.source as int))
}

/// `l` is the last template whose output path has the components `key`.
pub open spec fn last_with(outs: Seq<Seq<char>>, key: Seq<Seq<char>>, l: int) -> bool {
    &&& 0 <= l < outs.len()
    &&& paths::components(outs[l]) == key
    &&& forall|j: int| l < j < outs.len() ==> paths::components(#[trigger] outs[j]) != key
}

/// `f` is the first template whose output path has the components `key`.
pub open spec fn first_with(outs: Seq<Seq<char>>, key: Seq<Seq<char>>, f: int) -> bool {
    &&& 0 <= f < outs.len()
    &&& paths::components(outs[f]) == key
    &&& forall|j: int| 0 <= j < f ==> paths::components(#[trigger] outs[j]) != key
}

/// Each entry takes its contents from the last template naming its path.
#[verifier::opaque]
pub open spec fn plan_sources_last(outs: Seq<Seq<char>>, plan: Seq<(Seq<char>, int)>) -> bool {
    forall|k: int|
        0 <= k < plan.len() ==> last_with(outs, paths::components(#[trigger] plan[k].0), plan[k].1)
}

/// The first template whose output path has the components `key`, if any.
pub open spec fn first_index_of(outs: Seq<Seq<char>>, key: Seq<Seq<char>>) -> Option<int>
    decreases outs.len(),
{
    if outs.len() == 0 {
        None
    } else {
        match first_index_of(outs.drop_last(), key) {
            Some(i) => Some(i),
            None => if paths::components(outs.last()) == key {
                Some(outs.len() - 1)
            } else {
                None
            },
        }
    }
}

/// The entry whose path has the components `key`, if any (the last such).
pub open spec fn entry_index_of(plan: Seq<(Seq<char>, int)>, key: Seq<Seq<char>>) -> Option<int>
    decreases plan.len(),
{
    if plan.len() == 0 {
        None
    } else if paths::components(plan.last().0) == key {
        Some(plan.len() - 1)
    } else {
        entry_index_of(plan.drop_last(), key)
    }
}

/// Each entry's path is spelled as the first template naming it spelled it.
#[verifier::opaque]
pub open spec fn plan_spelled_first(outs: Seq<Seq<char>>, plan: Seq<(Seq<char>, int)>) -> bool {
    forall|k: int|
        0 <= k < plan.len() ==> match first_index_of(outs, paths::components(#[trigger] plan[k].0)) {
            Some(f) => outs[f] == plan[k].0,
            None => false,
        }
}

/// Every template's path has an entry.
#[verifier::opaque]
pub open spec fn plan_covers(outs: Seq<Seq<char>>, plan: Seq<(Seq<char>, int)>) -> bool {
    forall|j: int|
        0 <= j < outs.len() ==> entry_index_of(plan, paths::components(#[trigger] outs[j])) is Some
}

proof fn lemma_first_index_of(outs: Seq<Seq<char>>, key: Seq<Seq<char>>, f: int)
    ensures
        first_index_of(outs, key) == Some(f) <==> first_with(outs, key, f),
    decreases outs.len(),
{
    if outs.len() > 0 {
        let init = outs.drop_last();
        let n = outs.len() - 1;
        assert forall|j: int| 0 <= j < init.len() implies init[j] == #[trigger] outs[j] by {}
        match first_index_of(init, key) {
            Some(i) => {
                lemma_first_index_of(init, key, i);
                assert(first_with(init, key, i));
                assert(outs[i] == init[i]);
                if f == i {
                    assert(first_with(outs, key, f));
                } else if 0 <= f < i {
                    assert(outs[f] == init[f]);
                    assert(!first_with(outs, key, f));
                } else if f > i {
                    assert(!first_with(outs, key, f));
                }
            },
            None => {
                assert forall|j: int| 0 <= j < init.len() implies paths::components(
                    #[trigger] outs[j],
                ) != key by {
                    if paths::components(outs[j]) == key {
                        assert(init[j] == outs[j]);
                        lemma_first_index_none(init, key, j);
                    }
                }
                if first_with(outs, key, f) {
                    assert(f == n);
                }
            },
        }
    }
}

proof fn lemma_first_index_none(outs: Seq<Seq<char>>, key: Seq<Seq<char>>, j: int)
    requires
        0 <= j < outs.len(),
        paths::components(outs[j]) == key,
    ensures
        first_index_of(outs, key) is Some,
    decreases outs.len(),
{
    let init = outs.drop_last();
    if j < init.len() {
        assert(init[j] == outs[j]);
        lemma_first_index_none(init, key, j);
    }
}

proof fn lemma_entry_index_of(plan: Seq<(Seq<char>, int)>, key: Seq<Seq<char>>, m: int)
    ensures
        entry_index_of(plan, key) matches Some(i) ==> 0 <= i < plan.len() && paths::components(
            plan[i].0,
        ) == key,
        0 <= m < plan.len() && paths::components(plan[m].0) == key ==> entry_index_of(
            plan,
            key,
        ) is Some,
    decreases plan.len(),
{
    if plan.len() > 0 {
        let init = plan.drop_last();
        if 0 <= m < init.len() {
            assert(init[m] == plan[m]);
        }
        lemma_entry_index_of(init, key, m);
    }
}

/// Entries come in strictly increasing path order.
#[verifier::opaque]
pub open spec fn plan_sorted(plan: Seq<(Seq<char>, int)>) -> bool {
    forall|k1: int, k2: int|
        0 <= k1 < k2 < plan.len() ==> paths::components_less(
            paths::components(#[trigger] plan[k1].0),
            paths::components(#[trigger] plan[k2].0),
        )
}

/// `plan` handles the template outputs `outs` as an update does: one entry per
/// distinct path (paths are the same when their components are), written as the
/// first template naming it spelled it, with contents from the last template
/// naming it, entries in increasing path order.
pub open spec fn is_update_plan(outs: Seq<Seq<char>>, plan: Seq<(Seq<char>, int)>) -> bool {
    &&& plan_sources_last(outs, plan)
    &&& plan_spelled_first(outs, plan)
    &&& plan_covers(outs, plan)
    &&& plan_sorted(plan)
}

proof fn lemma_sorted_distinct(pv: Seq<(Seq<char>, int)>, m: int, k: int)
    requires
        plan_sorted(pv),
        0 <= m < pv.len(),
        0 <= k < pv.len(),
        m != k,
    ensures
        paths::components(pv[m].0) != paths::components(pv[k].0),
{
    reveal(plan_sorted);
    paths::lemma_components_less_irreflexive(paths::components(pv[m].0));
    if m < k {
        assert(paths::components_less(paths::components(pv[m].0), paths::components(pv[k].0)));
    } else {
        assert(paths::components_less(paths::components(pv[k].0), paths::components(pv[m].0)));
    }
}

proof fn lemma_plan_replace(prefix: Seq<Seq<char>>, x: Seq<char>, pv: Seq<(Seq<char>, int)>, k: int)
    requires
        is_update_plan(prefix, pv),
        0 <= k < pv.len(),
        paths::components(pv[k].0) == paths::components(x),
    ensures
        is_update_plan(prefix.push(x), pv.update(k, (pv[k].0, prefix.len() as int))),
{
    let next = prefix.push(x);
    let j = prefix.len() as int;
    let npv = pv.update(k, (pv[k].0, j));
    assert forall|i: int| 0 <= i < j implies #[trigger] next[i] == prefix[i] by {}
    assert(plan_sources_last(next, npv)) by {
        reveal(plan_sources_last);
        assert forall|m: int| 0 <= m < npv.len() implies last_with(
            next,
            paths::components(#[trigger] npv[m].0),
            npv[m].1,
        ) by {
            if m != k {
                lemma_sorted_distinct(pv, m, k);
                assert(last_with(prefix, paths::components(pv[m].0), pv[m].1));
            }
        }
    }
    assert(plan_spelled_first(next, npv)) by {
        reveal(plan_spelled_first);
        assert forall|m: int| 0 <= m < npv.len() implies match first_index_of(
            next,
            paths::components(#[trigger] npv[m].0),
        ) {
            Some(f) => next[f] == npv[m].0,
            None => false,
        } by {
            assert(npv[m].0 == pv[m].0);
            let key = paths::components(pv[m].0);
            let f = first_index_of(prefix, key)->0;
            assert(first_index_of(prefix, key) is Some);
            lemma_first_index_of(prefix, key, f);
            assert(first_with(next, key, f));
            lemma_first_index_of(next, key, f);
        }
    }
    assert(plan_covers(next, npv)) by {
        reveal(plan_covers);
        assert forall|i: int| 0 <= i < next.len() implies entry_index_of(
            npv,
            paths::components(#[trigger] next[i]),
        ) is Some by {
            let key = paths::components(next[i]);
            if i < j {
                assert(prefix[i] == next[i]);
                let m = entry_index_of(pv, key)->0;
                lemma_entry_index_of(pv, key, 0);
                assert(npv[m].0 == pv[m].0);
                lemma_entry_index_of(npv, key, m);
            } else {
                assert(npv[k].0 == pv[k].0);
                lemma_entry_index_of(npv, key, k);
            }
        }
    }
    assert(plan_sorted(npv)) by {
        reveal(plan_sorted);
        assert forall|k1: int, k2: int| 0 <= k1 < k2 < npv.len() implies paths::components_less(
            paths::components(#[trigger] npv[k1].0),
            paths::components(#[trigger] npv[k2].0),
        ) by {
            assert(npv[k1].0 == pv[k1].0);
            assert(npv[k2].0 == pv[k2].0);
        }
    }
}

proof fn lemma_plan_insert(prefix: Seq<Seq<char>>, x: Seq<char>, pv: Seq<(Seq<char>, int)>, p: int)
    requires
        is_update_plan(prefix, pv),
        0 <= p <= pv.len(),
        forall|m: int|
            0 <= m < pv.len() ==> paths::components(#[trigger] pv[m].0) != paths::components(x),
        forall|m: int|
            0 <= m < p ==> paths::components_less(
                paths::components(#[trigger] pv[m].0),
                paths::components(x),
            ),
        forall|m: int|
            p <= m < pv.len() ==> paths::components_less(
                paths::components(x),
                paths::components(#[trigger] pv[m].0),
            ),
    ensures
        is_update_plan(prefix.push(x), pv.insert(p, (x, prefix.len() as int))),
{
    let next = prefix.push(x);
    let j = prefix.len() as int;
    let kv = paths::components(x);
    let npv = pv.insert(p, (x, j));
    assert forall|i: int| 0 <= i < j implies #[trigger] next[i] == prefix[i] by {}
    assert forall|i: int| 0 <= i < j implies paths::components(#[trigger] prefix[i]) != kv by {
        reveal(plan_covers);
        lemma_entry_index_of(pv, paths::components(prefix[i]), 0);
    }
    assert(plan_sources_last(next, npv)) by {
        reveal(plan_sources_last);
        assert forall|m: int| 0 <= m < npv.len() implies last_with(
            next,
            paths::components(#[trigger] npv[m].0),
            npv[m].1,
        ) by {
            if m < p {
                assert(npv[m] == pv[m]);
                assert(last_with(prefix, paths::components(pv[m].0), pv[m].1));
            } else if m > p {
                assert(npv[m] == pv[m - 1]);
                assert(last_with(prefix, paths::components(pv[m - 1].0), pv[m - 1].1));
            } else {
                assert(npv[m] == (x, j));
            }
        }
    }
    assert(plan_spelled_first(next, npv)) by {
        reveal(plan_spelled_first);
        assert forall|m: int| 0 <= m < npv.len() implies match first_index_of(
            next,
            paths::components(#[trigger] npv[m].0),
        ) {
            Some(f) => next[f] == npv[m].0,
            None => false,
        } by {
            if m == p {
                assert(npv[m] == (x, j));
                assert(first_with(next, kv, j));
                lemma_first_index_of(next, kv, j);
            } else {
                let mm = if m < p {
                    m
                } else {
                    m - 1
                };
                assert(npv[m] == pv[mm]);
                let key = paths::components(pv[mm].0);
                let f = first_index_of(prefix, key)->0;
                assert(first_index_of(prefix, key) is Some);
                lemma_first_index_of(prefix, key, f);
                assert(first_with(next, key, f));
                lemma_first_index_of(next, key, f);
            }
        }
    }
    assert(plan_covers(next, npv)) by {
        reveal(plan_covers);
        assert forall|i: int| 0 <= i < next.len() implies entry_index_of(
            npv,
            paths::components(#[trigger] next[i]),
        ) is Some by {
            let key = paths::components(next[i]);
            if i < j {
                assert(prefix[i] == next[i]);
                let m = entry_index_of(pv, key)->0;
                lemma_entry_index_of(pv, key, 0);
                let mm = if m < p {
                    m
                } else {
                    m + 1
                };
                assert(npv[mm] == pv[m]);
                lemma_entry_index_of(npv, key, mm);
            } else {
                assert(npv[p].0 == next[i]);
                lemma_entry_index_of(npv, key, p);
            }
        }
    }
    assert(plan_sorted(npv)) by {
        reveal(plan_sorted);
        assert forall|k1: int, k2: int| 0 <= k1 < k2 < npv.len() implies paths::components_less(
            paths::components(#[trigger] npv[k1].0),
            paths::components(#[trigger] npv[k2].0),
        ) by {
            if k1 < p && k2 < p {
                assert(npv[k1] == pv[k1] && npv[k2] == pv[k2]);
            } else if k1 < p && k2 == p {
                assert(npv[k1] == pv[k1]);
            } else if k1 < p && k2 > p {
                assert(npv[k1] == pv[k1] && npv[k2] == pv[k2 - 1]);
                paths::lemma_components_less_transitive(
                    paths::components(pv[k1].0),
                    kv,
                    paths::components(pv[k2 - 1].0),
                );
            } else if k1 == p {
                assert(npv[k2] == pv[k2 - 1]);
            } else {
                assert(npv[k1] == pv[k1 - 1] && npv[k2] == pv[k2 - 1]);
            }
        }
    }
}

/// The output paths of the template files at `rels`.
pub open spec fn output_paths(rels: Seq<Seq<char>>, crate_name: Seq<char>) -> Seq<Seq<char>> {
    rels.map_values(|r: Seq<char>| paths::output_path(r, crate_name))
}

pub open spec fn strings_view(v: Seq<String>) -> Seq<Seq<char>> {
    v.map_values(|s: String| s@)
}

/// The files an update goes through, from the relative paths of the template files
/// (in collection order) and the crate name.
pub fn plan_update(rels: &Vec<String>, crate_name: &str) -> (plan: Vec<PlannedFile>)
    ensures
        is_update_plan(output_paths(strings_view(rels@), crate_name@), plan_view(plan@)),
{
    let ghost outs = output_paths(strings_view(rels@), crate_name@);
    let mut plan: Vec<PlannedFile> = Vec::new();
    let mut keys: Vec<Vec<Vec<char>>> = Vec::new();
    let mut j: usize = 0;
    proof {
        reveal(plan_sources_last);
        reveal(plan_spelled_first);
        reveal(plan_covers);
        reveal(plan_sorted);
        assert(is_update_plan(outs.take(0), plan_view(plan@)));
    }
    while j < rels.len()
        invariant
            j <= rels.len(),
            outs == output_paths(strings_view(rels@), crate_name@),
            outs.len() == rels.len(),
            keys.len() == plan.len(),
            forall|k: int|
                0 <= k < keys.len() ==> text::lines_view(#[trigger] keys@[k]@) == paths::components(
                    plan@[k].output@,
                ),
            is_update_plan(outs.take(j as int), plan_view(plan@)),
        decreases rels.len() - j,
    {
        let ghost pv = plan_view(plan@);
        let ghost prefix = outs.take(j as int);
        let out = paths::output_rel_for(rels[j].as_str(), crate_name);
        assert(out@ == outs[j as int]);
        assert(outs.take(j + 1) =~= prefix.push(out@));
        let oc = text::chars_of(out.as_str());
        let key = paths::path_components(&oc);
        let ghost kv = text::lines_view(key@);
        assert(kv == paths::components(out@));
        let mut k: usize = 0;
        while k < keys.len() && !paths::components_eq_exec(&keys[k], &key)
            invariant
                k <= keys.len(),
                keys.len() == plan.len(),
                kv == text::lines_view(key@),
                forall|i: int| 0 <= i < k ==> text::lines_view(#[trigger] keys@[i]@) != kv,
            decreases keys.len() - k,
        {
            k += 1;
        }
        if k < keys.len() {
            // Same path as an earlier template: this later one supplies the contents.
            let entry = PlannedFile { output: plan[k].output.clone(), source: j };
            plan.set(k, entry);
            proof {
                assert(plan_view(plan@) =~= pv.update(k as int, (pv[k as int].0, j as int)));
                lemma_plan_replace(prefix, out@, pv, k as int);
            }
        } else {
            // A new path: insert it where the order puts it.
            let mut p: usize = 0;
            while p < keys.len() && !paths::components_less_exec(&key, &keys[p])
                invariant
                    p <= keys.len(),
                    keys.len() == plan.len(),
                    kv == text::lines_view(key@),
                    forall|i: int|
                        0 <= i < p ==> !paths::components_less(
                            kv,
                            text::lines_view(#[trigger] keys@[i]@),
                        ),
                decreases keys.len() - p,
            {
                p += 1;
            }
            proof {
                reveal(plan_sorted);
                assert forall|m: int| 0 <= m < pv.len() implies paths::components(
                    #[trigger] pv[m].0,
                ) != kv by {
                    assert(text::lines_view(keys@[m]@) != kv);
                }
                assert forall|i: int| 0 <= i < p implies paths::components_less(
                    paths::components(#[trigger] pv[i].0),
                    kv,
                ) by {
                    assert(text::lines_view(keys@[i]@) != kv);
                    paths::lemma_components_less_total(kv, text::lines_view(keys@[i]@));
                }
                assert forall|i: int| p <= i < pv.len() implies paths::components_less(
                    kv,
                    paths::components(#[trigger] pv[i].0),
                ) by {
                    if i > p {
                        assert(paths::components_less(
                            paths::components(pv[p as int].0),
                            paths::components(pv[i].0),
                        ));
                        paths::lemma_components_less_transitive(
                            kv,
                            paths::components(pv[p as int].0),
                            paths::components(pv[i].0),
                        );
                    }
                }
                lemma_plan_insert(prefix, out@, pv, p as int);
            }
            let ghost old_keys = keys@;
            plan.insert(p, PlannedFile { output: out, source: j });
            keys.insert(p, key);
            proof {
                assert(plan_view(plan@) =~= pv.insert(p as int, (outs[j as int], j as int)));
                assert forall|k: int| 0 <= k < keys.len() implies text::lines_view(
                    #[trigger] keys@[k]@,
                ) == paths::components(plan@[k].output@) by {
                    if k < p {
                        assert(keys@[k] == old_keys[k]);
                    } else if k > p {
                        assert(keys@[k] == old_keys[k - 1]);
                    }
                }
            }
        }
        j += 1;
    }
    assert(outs.take(rels.len() as int) =~= outs);
    plan
}


// ---------------------------------------------------------------------------
// Recovering the configuration from the project's files
// ---------------------------------------------------------------------------

/// What an update reads from `plugin.json`: the string values at `id`, `type`,
/// `info.description`, `info.author.name`, `info.author.url` and `info.updated`
/// (`None` where the value is missing or not a string).
#[derive(Debug, Clone)]
pub struct PluginJson {
    pub id: Option<String>,
    pub plugin_type: Option<String>,
    pub description: Option<String>,
    pub author_name: Option<String>,
    pub author_url: Option<String>,
    pub updated: Option<String>,
}

/// What an update sees of the project directory.
#[derive(Debug, Clone)]
pub struct ProjectLayout {
    /// `Cargo.toml` exists (the WASM workspace).
    pub has_cargo_toml: bool,
    /// `docker-compose.yml` exists.
    pub has_compose_yml: bool,
    /// `docker-compose.yaml` exists.
    pub has_compose_yaml: bool,
    /// `otel-mock` is a directory.
    pub has_otel_mock_dir: bool,
    /// The text of `docker-compose.yml`, or else of `docker-compose.yaml`, if one
    /// could be read.
    pub compose_text: Option<String>,
}

pub open spec fn opt_view(o: Option<String>) -> Option<Seq<char>> {
    match o {
        Some(s) => Some(s@),
        None => None,
    }
}

pub open spec fn text_or_empty(o: Option<String>) -> Seq<char> {
    match o {
        Some(s) => s@,
        None => Seq::<char>::empty(),
    }
}

/// Docker is in use when a compose file exists.
pub open spec fn layout_has_docker(layout: ProjectLayout) -> bool {
    layout.has_compose_yml || layout.has_compose_yaml
}

/// The port offset an update renders with: read from the compose text when the
/// project uses Docker, 0 otherwise (and when no compose text could be read).
pub open spec fn layout_port_offset(layout: ProjectLayout) -> u16 {
    if layout_has_docker(layout) {
        match layout.compose_text {
            Some(t) => port_offset_of(t@),
            None => 0,
        }
    } else {
        0
    }
}

/// The failure, if any, of recovering a configuration from `meta`: the id is
/// missing, or does not split, or the type is missing or not a plugin type.
pub open spec fn discovery_error(meta: PluginJson) -> Option<UpdateError> {
    match meta.id {
        None => Some(UpdateError::MissingId),
        Some(id) => match plugin_id_parts(id@, opt_view(meta.author_url)) {
            None => Some(UpdateError::InvalidPluginId),
            Some(_) => match meta.plugin_type {
                None => Some(UpdateError::MissingType),
                Some(t) => match config::plugin_type_of(config::lowercase(t@)) {
                    None => Some(UpdateError::Config(config::ConfigError::InvalidPluginType(t))),
                    Some(_) => None,
                },
            },
        },
    }
}

/// Whether `cfg` with `port_offset` is what an update recovers from `meta` and
/// `layout` (when recovery succeeds).
pub open spec fn discovered(
    meta: PluginJson,
    layout: ProjectLayout,
    cfg: config::ProjectConfig,
    port_offset: u16,
) -> bool {
    let parts = plugin_id_parts(meta.id->0@, opt_view(meta.author_url))->0;
    &&& cfg.org@ == parts.0
    &&& cfg.name@ == config::kebab_case(parts.1)
    &&& Some(cfg.plugin_type) == config::plugin_type_of(config::lowercase(meta.plugin_type->0@))
    &&& cfg.description@ == text_or_empty(meta.description)
    &&& cfg.author@ == text_or_empty(meta.author_name)
    &&& cfg.has_wasm == layout.has_cargo_toml
    &&& cfg.has_docker == layout_has_docker(layout)
    &&& cfg.has_mock == (layout_has_docker(layout) && layout.has_otel_mock_dir)
    &&& port_offset == layout_port_offset(layout)
}

fn text_or_empty_exec(o: &Option<String>) -> (r: String)
    ensures
        r@ == text_or_empty(*o),
{
    match o {
        Some(s) => s.clone(),
        None => String::new(),
    }
}

/// Whether `raw` is a JSON document that `serde_json` parses.
pub uninterp spec fn json_valid(raw: Seq<char>) -> bool;

/// The string that the JSON document `raw`, as `serde_json` parses it, holds at
/// the key path `path` (object members, outermost first); `None` where the path
/// is missing or leads to something other than a string.
pub uninterp spec fn json_string_at(raw: Seq<char>, path: Seq<Seq<char>>) -> Option<Seq<char>>;

pub open spec fn id_path() -> Seq<Seq<char>> {
    seq!["id"@]
}

pub open spec fn type_path() -> Seq<Seq<char>> {
    seq!["type"@]
}

pub open spec fn description_path() -> Seq<Seq<char>> {
    seq!["info"@, "description"@]
}

pub open spec fn author_name_path() -> Seq<Seq<char>> {
    seq!["info"@, "author"@, "name"@]
}

pub open spec fn author_url_path() -> Seq<Seq<char>> {
    seq!["info"@, "author"@, "url"@]
}

pub open spec fn updated_path() -> Seq<Seq<char>> {
    seq!["info"@, "updated"@]
}

/// Whether `meta` holds what the JSON text `raw` holds at each of its key paths.
pub open spec fn read_from(meta: PluginJson, raw: Seq<char>) -> bool {
    &&& opt_view(meta.id) == json_string_at(raw, id_path())
    &&& opt_view(meta.plugin_type) == json_string_at(raw, type_path())
    &&& opt_view(meta.description) == json_string_at(raw, description_path())
    &&& opt_view(meta.author_name) == json_string_at(raw, author_name_path())
    &&& opt_view(meta.author_url) == json_string_at(raw, author_url_path())
    &&& opt_view(meta.updated) == json_string_at(raw, updated_path())
}

/// `serde_json::from_str::<serde_json::Value>`, then the string (`Value::as_str`)
/// at each key path that an update reads (indexing a `Value` by a key gives
/// `Null` where the member is missing).  Claimed: there is a result exactly when
/// the text is valid JSON, and each field is `json_string_at` of its path.
#[verifier::external_body]
fn plugin_json_from_text(raw: &str) -> (r: Option<PluginJson>)
    ensures
        r is Some <==> json_valid(raw@),
        r matches Some(meta) ==> opt_view(meta.id) == json_string_at(raw@, id_path()),
        r matches Some(meta) ==> opt_view(meta.plugin_type) == json_string_at(raw@, type_path()),
        r matches Some(meta) ==> opt_view(meta.description) == json_string_at(raw@, description_path()),
        r matches Some(meta) ==> opt_view(meta.author_name) == json_string_at(raw@, author_name_path()),
        r matches Some(meta) ==> opt_view(meta.author_url) == json_string_at(raw@, author_url_path()),
        r matches Some(meta) ==> opt_view(meta.updated) == json_string_at(raw@, updated_path()),
{
    let v: serde_json::Value = serde_json::from_str(raw).ok()?;
    let s = |x: &serde_json::Value| x.as_str().map(String::from);
    Some(PluginJson {
        id: s(&v["id"]),
        plugin_type: s(&v["type"]),
        description: s(&v["info"]["description"]),
        author_name: s(&v["info"]["author"]["name"]),
        author_url: s(&v["info"]["author"]["url"]),
        updated: s(&v["info"]["updated"]),
    })
}

/// The `info.updated` date recorded in a `plugin.json` text, if it is valid JSON
/// and holds one.
pub fn existing_updated_date(plugin_json: &str) -> (r: Option<String>)
    ensures
        opt_view(r) == if json_valid(plugin_json@) {
            json_string_at(plugin_json@, updated_path())
        } else {
            None
        },
{
    match plugin_json_from_text(plugin_json) {
        Some(meta) => meta.updated,
        None => None,
    }
}

/// What recovering a configuration from `meta` and `layout` gives: the error of
/// `discovery_error` (an invalid type with the text as given), or the
/// configuration and port offset that `discovered` describes.
pub open spec fn discovery_outcome(
    meta: PluginJson,
    layout: ProjectLayout,
    r: Result<(config::ProjectConfig, u16), UpdateError>,
) -> bool {
    match discovery_error(meta) {
        Some(UpdateError::Config(config::ConfigError::InvalidPluginType(t))) => r matches Err(
            UpdateError::Config(config::ConfigError::InvalidPluginType(g)),
        ) && g@ == t@,
        Some(e) => r == Err::<(config::ProjectConfig, u16), UpdateError>(e),
        None => r matches Ok((cfg, port)) && discovered(meta, layout, cfg, port),
    }
}

/// Recover the configuration of an existing project (and the Grafana port offset
/// its compose file uses) from `plugin.json` and the project's layout.
pub fn discover_project_config(meta: &PluginJson, layout: &ProjectLayout) -> (r: Result<
    (config::ProjectConfig, u16),
    UpdateError,
>)
    ensures
        match discovery_error(*meta) {
            Some(UpdateError::Config(config::ConfigError::InvalidPluginType(t))) => r matches Err(
                UpdateError::Config(config::ConfigError::InvalidPluginType(g)),
            ) && g@ == t@,
            Some(e) => r == Err::<(config::ProjectConfig, u16), UpdateError>(e),
            None => r matches Ok((cfg, port)) && discovered(*meta, *layout, cfg, port),
        },
{
    let id = match &meta.id {
        Some(id) => id,
        None => return Err(UpdateError::MissingId),
    };
    let url = match &meta.author_url {
        Some(u) => Some(u.as_str()),
        None => None,
    };
    let (org, name) = match split_plugin_id(id.as_str(), url) {
        Ok(parts) => parts,
        Err(e) => return Err(e),
    };
    let type_text = match &meta.plugin_type {
        Some(t) => t,
        None => return Err(UpdateError::MissingType),
    };
    let plugin_type = match config::parse_plugin_type(type_text.as_str()) {
        Ok(t) => t,
        Err(e) => return Err(UpdateError::Config(e)),
    };
    let has_docker = layout.has_compose_yml || layout.has_compose_yaml;
    let port_offset = if has_docker {
        match &layout.compose_text {
            Some(t) => infer_port_offset(t.as_str()),
            None => 0,
        }
    } else {
        0
    };
    let cfg = config::ProjectConfig {
        name: config::to_kebab_case(name.as_str()),
        description: text_or_empty_exec(&meta.description),
        author: text_or_empty_exec(&meta.author_name),
        org,
        plugin_type,
        has_wasm: layout.has_cargo_toml,
        has_docker,
        has_mock: has_docker && layout.has_otel_mock_dir,
    };
    Ok((cfg, port_offset))
}

/// Recover the configuration of an existing project from the text of its
/// `plugin.json` and its layout: invalid JSON is refused, otherwise the values at
/// the document's key paths are read as `discover_project_config` reads them.
pub fn discover_project_config_from_text(plugin_json: &str, layout: &ProjectLayout) -> (r: Result<
    (config::ProjectConfig, u16),
    UpdateError,
>)
    ensures
        !json_valid(plugin_json@) <==> r == Err::<(config::ProjectConfig, u16), UpdateError>(
            UpdateError::InvalidJson,
        ),
        json_valid(plugin_json@) ==> exists|meta: PluginJson|
            read_from(meta, plugin_json@) && #[trigger] discovery_outcome(meta, *layout, r),
{
    match plugin_json_from_text(plugin_json) {
        None => Err(UpdateError::InvalidJson),
        Some(meta) => {
            let r = discover_project_config(&meta, layout);
            assert(discovery_outcome(meta, *layout, r));
            r
        },
    }
}

// ---------------------------------------------------------------------------
// What happens to each planned file
// ---------------------------------------------------------------------------

/// What an update does with one planned file.
#[derive(Debug, Clone, Copy, PartialEq, Eq, Structural)]
pub enum FileAction {
    /// No file there yet: it is created.
    Create,
    /// The file already holds the new contents: nothing to do.
    Unchanged,
    /// The file differs but carries no marker: it is left alone.
    SkipUnmanaged,
    /// A managed file that differs: it is rewritten.
    Update,
    /// A managed file that differs, but the new contents are not UTF-8: the update
    /// fails.
    NotUtf8,
}

/// The action for the file at `rel`, given what it holds now (if it exists) and
/// what the template renders to.
pub open spec fn file_action(rel: Seq<char>, existing: Option<Seq<u8>>, new_bytes: Seq<u8>) -> FileAction {
    match existing {
        None => FileAction::Create,
        Some(old) => if old == new_bytes {
            FileAction::Unchanged
        } else if !is_managed(rel, unicode::lossy_text(old)) {
            FileAction::SkipUnmanaged
        } else if !vstd::utf8::valid_utf8(new_bytes) {
            FileAction::NotUtf8
        } else {
            FileAction::Update
        },
    }
}

fn bytes_eq(a: &[u8], b: &[u8]) -> (r: bool)
    ensures
        r == (a@ == b@),
{
    if a.len() != b.len() {
        return false;
    }
    let mut i: usize = 0;
    while i < a.len()
        invariant
            a@.len() == b@.len(),
            i <= a@.len(),
            forall|j: int| 0 <= j < i ==> a@[j] == b@[j],
        decreases a@.len() - i,
    {
        if a[i] != b[i] {
            return false;
        }
        i += 1;
    }
    assert(a@ =~= b@);
    true
}

/// Decide what an update does with the file at `rel`.
pub fn decide_file_action(rel: &str, existing: Option<&[u8]>, new_bytes: &[u8]) -> (r: FileAction)
    ensures
        r == file_action(rel@, match existing { Some(b) => Some(b@), None => None }, new_bytes@),
{
    match existing {
        None => FileAction::Create,
        Some(old) => {
            if bytes_eq(old, new_bytes) {
                FileAction::Unchanged
            } else {
                let old_text = unicode::utf8_text_lossy(old);
                if !is_managed_existing_file(rel, old_text.as_str()) {
                    FileAction::SkipUnmanaged
                } else {
                    match unicode::utf8_text(new_bytes) {
                        None => FileAction::NotUtf8,
                        Some(_) => FileAction::Update,
                    }
                }
            }
        },
    }
}

/// What an update does on disk (or shows) for one file.
#[derive(Debug, Clone, Copy, PartialEq, Eq, Structural)]
pub enum Effect {
    /// Nothing.
    Nothing,
    /// Create the parent directories and write the new file.
    CreateFile,
    /// Show the new file's text (nothing is created).
    ShowNewFile,
    /// Replace the file's contents (its directory is created if missing).
    Rewrite,
    /// Show the diff from the old to the new text.
    ShowDiff,
    /// Stop the update with an error.
    Fail,
}

/// The effect of an action; a dry run shows what it would write.
pub open spec fn effect_of(action: FileAction, dry_run: bool) -> Effect {
    match action {
        FileAction::Create => if dry_run { Effect::ShowNewFile } else { Effect::CreateFile },
        FileAction::Unchanged => Effect::Nothing,
        FileAction::SkipUnmanaged => Effect::Nothing,
        FileAction::Update => if dry_run { Effect::ShowDiff } else { Effect::Rewrite },
        FileAction::NotUtf8 => Effect::Fail,
    }
}

/// Whether an effect writes a file.
pub open spec fn writes_file(e: Effect) -> bool {
    e == Effect::CreateFile || e == Effect::Rewrite
}

/// Whether an effect creates directories (the parents of the file it writes).
pub open spec fn makes_directories(e: Effect) -> bool {
    e == Effect::CreateFile || e == Effect::Rewrite
}

/// The effect of an action in a run that is (or is not) a dry run.
pub fn action_effect(action: FileAction, dry_run: bool) -> (r: Effect)
    ensures
        r == effect_of(action, dry_run),
{
    match action {
        FileAction::Create => if dry_run { Effect::ShowNewFile } else { Effect::CreateFile },
        FileAction::Unchanged => Effect::Nothing,
        FileAction::SkipUnmanaged => Effect::Nothing,
        FileAction::Update => if dry_run { Effect::ShowDiff } else { Effect::Rewrite },
        FileAction::NotUtf8 => Effect::Fail,
    }
}

/// How many files an update touched.
#[derive(Debug, Clone, Copy, PartialEq, Eq, Structural)]
pub struct UpdateTally {
    pub updated: usize,
    pub created: usize,
    pub skipped: usize,
}

impl UpdateTally {
    pub fn new() -> (r: Self)
        ensures
            r == (UpdateTally { updated: 0, created: 0, skipped: 0 }),
    {
        UpdateTally { updated: 0, created: 0, skipped: 0 }
    }

    /// Count one file's action: an update, a creation or a skip adds one to its
    /// count; an unchanged file (or a failure) adds nothing.
    pub fn record(&mut self, action: FileAction)
        requires
            old(self).updated < usize::MAX,
            old(self).created < usize::MAX,
            old(self).skipped < usize::MAX,
        ensures
            final(self).updated == old(self).updated + if action == FileAction::Update { 1usize } else { 0usize },
            final(self).created == old(self).created + if action == FileAction::Create { 1usize } else { 0usize },
            final(self).skipped == old(self).skipped + if action == FileAction::SkipUnmanaged { 1usize } else { 0usize },
    {
        match action {
            FileAction::Update => self.updated = self.updated + 1,
            FileAction::Create => self.created = self.created + 1,
            FileAction::SkipUnmanaged => self.skipped = self.skipped + 1,
            _ => {},
        }
    }
}

// ---------------------------------------------------------------------------
// The version marker
// ---------------------------------------------------------------------------

/// The name of the file that records the tool version a project was made with.
pub const VERSION_MARKER_FILE: &'static str = ".grafana-plugin-version";

/// The version recorded in a marker file's text: the trimmed text, unless empty.
pub open spec fn marker_version(raw: Seq<char>) -> Option<Seq<char>> {
    if text::trim(raw).len() == 0 {
        None
    } else {
        Some(text::trim(raw))
    }
}

/// Read the version stored when the project was scaffolded or last updated.
pub fn parse_version_marker(raw: &str) -> (r: Option<String>)
    ensures
        opt_view(r) == marker_version(raw@),
{
    let cs = text::chars_of(raw);
    let t = text::trim_chars(&cs);
    if t.len() == 0 {
        None
    } else {
        Some(text::string_from_chars(&t))
    }
}

} // verus!
