//! Properties of the library as a whole, each proved from the specifications
//! that the functions' contracts use.

use vstd::prelude::*;
use crate::config;
use crate::engine;
use crate::paths;
use crate::resolve;
use crate::template;
use crate::text;
use crate::unicode;
use crate::updater;

verus! {

/// The template stack starts with `base` and the plugin type's layer; it holds
/// the `wasm` layer exactly when WASM is selected, the `docker` layer exactly when
/// Docker is, and the `mock` layer exactly when the mock generator and Docker are
/// both selected.
pub proof fn stack_layers(plugin_type: config::PluginType, has_wasm: bool, has_docker: bool, has_mock: bool)
    ensures
        config::template_stack(plugin_type, has_wasm, has_docker, has_mock)[0] == "base"@,
        config::template_stack(plugin_type, has_wasm, has_docker, has_mock)[1]
            == config::plugin_type_name(plugin_type),
        config::template_stack(plugin_type, has_wasm, has_docker, has_mock).contains("wasm"@)
            <==> has_wasm,
        config::template_stack(plugin_type, has_wasm, has_docker, has_mock).contains("docker"@)
            <==> has_docker,
        config::template_stack(plugin_type, has_wasm, has_docker, has_mock).contains("mock"@)
            <==> (has_mock && has_docker),
{
    let st = config::template_stack(plugin_type, has_wasm, has_docker, has_mock);
    reveal_strlit("mock");
    reveal_strlit("base");
    reveal_strlit("panel");
    reveal_strlit("datasource");
    reveal_strlit("app");
    reveal_strlit("wasm");
    reveal_strlit("docker");
    if has_mock && has_docker {
        assert(st[st.len() - 1] == "mock"@);
    } else {
        assert forall|i: int| 0 <= i < st.len() implies st[i] != "mock"@ by {
            assert(st[i].len() != 4 || st[i][0] != 'm');
        }
    }
    if has_wasm {
        assert(st[2] == "wasm"@);
    } else {
        assert forall|i: int| 0 <= i < st.len() implies st[i] != "wasm"@ by {
            assert(st[i].len() != 4 || st[i][0] != 'w');
        }
    }
    if has_docker {
        assert(st[if has_wasm { 3int } else { 2int }] == "docker"@);
    } else {
        assert forall|i: int| 0 <= i < st.len() implies st[i] != "docker"@ by {
            assert(st[i].len() != 6 || st[i][0] != 'd' || st[i][1] != 'o');
        }
    }
}

/// Every configuration that resolution produces, with or without questions,
/// passes validation: the mock generator never comes without Docker.
pub proof fn resolved_configs_are_valid(s: resolve::ConfigSources, t: config::PluginType, cfg: config::ProjectConfig)
    ensures
        resolve::completed_from(s, cfg) ==> config::config_is_consistent(cfg.has_docker, cfg.has_mock),
        resolve::built_from(s, t, cfg) && config::config_is_consistent(
            resolve::flag_or(s.docker, false),
            resolve::flag_or(s.mock, false),
        ) ==> config::config_is_consistent(cfg.has_docker, cfg.has_mock),
{
}

/// A dry run writes no file and creates no directory: whatever the action, its
/// effect in a dry run only shows text (or does nothing, or fails).
pub proof fn dry_run_writes_nothing(action: updater::FileAction)
    ensures
        !updater::writes_file(updater::effect_of(action, true)),
        !updater::makes_directories(updater::effect_of(action, true)),
{
}

/// An update rewrites an existing file only when it is managed by the tool and its
/// contents differ; an existing file without a marker (and not a known JSON file)
/// is never rewritten.
pub proof fn update_rewrites_only_managed_files(
    rel: Seq<char>,
    old: Seq<u8>,
    new_bytes: Seq<u8>,
    dry_run: bool,
)
    ensures
        updater::writes_file(
            updater::effect_of(updater::file_action(rel, Some(old), new_bytes), dry_run),
        ) ==> updater::is_managed(rel, unicode::lossy_text(old)) && old != new_bytes,
        !updater::is_managed(rel, unicode::lossy_text(old)) ==> !updater::writes_file(
            updater::effect_of(updater::file_action(rel, Some(old), new_bytes), dry_run),
        ),
{
}

/// A file that does not exist yet is always created (shown in a dry run).
pub proof fn missing_files_are_created(rel: Seq<char>, new_bytes: Seq<u8>)
    ensures
        updater::file_action(rel, None, new_bytes) == updater::FileAction::Create,
{
}

/// Updating twice with the same templates changes nothing the second time: a file
/// that already holds what the template renders is left as it is.
pub proof fn second_update_changes_nothing(rel: Seq<char>, new_bytes: Seq<u8>, dry_run: bool)
    ensures
        updater::file_action(rel, Some(new_bytes), new_bytes) == updater::FileAction::Unchanged,
        updater::effect_of(updater::file_action(rel, Some(new_bytes), new_bytes), dry_run)
            == updater::Effect::Nothing,
{
}

/// The plugin id a scaffold writes (`org-name`, author URL ending in `/org`) splits
/// back into the same organisation and name, whatever `-` they contain.
pub proof fn plugin_id_round_trip(org: Seq<char>, name: Seq<char>, url_base: Seq<char>)
    requires
        org.len() > 0,
        !org.contains('/'),
    ensures
        updater::plugin_id_parts(
            org + seq!['-'] + name,
            Some(url_base + seq!['/'] + org),
        ) == Some((org, name)),
{
    let url = url_base + seq!['/'] + org;
    let id = org + seq!['-'] + name;
    assert forall|k: int| url_base.len() + 1 <= k < url.len() implies url[k] != '/' by {
        assert(url[k] == org[k - url_base.len() - 1]);
    }
    paths::lemma_after_last(url, '/', url_base.len() as int + 1);
    assert(url.skip(url_base.len() as int + 1) =~= org);
    assert(id.take(org.push('-').len() as int) =~= org.push('-'));
    assert(id.skip(org.len() as int + 1) =~= name);
}

/// A template path `q.tera` (whose last component is not empty) is written to `q`.
pub proof fn tera_extension_dropped(q: Seq<char>)
    requires
        q.len() > 0,
        q.last() != '/',
    ensures
        paths::template_output_path(q + ".tera"@) == q,
{
    reveal_strlit(".tera");
    reveal_strlit("tera");
    let p = q + ".tera"@;
    assert(p.last() == 'a');
    assert(paths::trim_tail(p) == p);
    let name = paths::after_last(p, '/');
    let qn = paths::after_last(q, '/');
    lemma_after_last_append(q, ".tera"@, '/');
    assert(name == qn + ".tera"@);
    assert(qn.len() > 0) by {
        assert(paths::after_last(q, '/') == paths::after_last(q.drop_last(), '/').push(q.last()));
    }
    lemma_after_last_append(qn, ".tera"@, '.');
    assert(paths::after_last(".tera"@, '.') =~= "tera"@) by {
        let t5 = ".tera"@;
        let t4 = t5.drop_last();
        let t3 = t4.drop_last();
        let t2 = t3.drop_last();
        let t1 = t2.drop_last();
        assert(t1 =~= seq!['.']);
        assert(paths::after_last(t1, '.') =~= Seq::<char>::empty());
        assert(t2.last() == 't');
        assert(paths::after_last(t2, '.') =~= seq!['t']);
        assert(t3.last() == 'e');
        assert(paths::after_last(t3, '.') =~= seq!['t', 'e']);
        assert(t4.last() == 'r');
        assert(paths::after_last(t4, '.') =~= seq!['t', 'e', 'r']);
        assert(t5.last() == 'a');
        assert(paths::after_last(t5, '.') =~= seq!['t', 'e', 'r', 'a']);
    }
    assert(name.contains('.')) by {
        assert(name[name.len() - 5] == '.');
    }
    assert(".tera"@[0] == '.');
    assert(".tera"@.contains('.'));
    assert(paths::after_last(name, '.') == "tera"@);
    assert("tera"@.len() == 4);
    assert(name.len() == qn.len() + 5);
    assert(paths::name_extension(name) == Some("tera"@));
    assert(paths::file_name(p) == Some(name)) by {
        assert(name != "."@ && name != ".."@) by {
            reveal_strlit(".");
            reveal_strlit("..");
            assert(name.len() >= 6);
        }
    }
    assert(p.take(p.len() - 5) =~= q);
}

proof fn lemma_after_last_append(a: Seq<char>, b: Seq<char>, sep: char)
    requires
        b.len() > 0,
    ensures
        !b.contains(sep) ==> paths::after_last(a + b, sep) == paths::after_last(a, sep) + b,
        b.contains(sep) ==> paths::after_last(a + b, sep) == paths::after_last(b, sep),
    decreases b.len(),
{
    let ab = a + b;
    assert(ab.drop_last() =~= a + b.drop_last());
    if b.len() == 1 {
        assert(b.drop_last() =~= Seq::<char>::empty());
        assert(a + b.drop_last() =~= a);
        if b[0] == sep {
            assert(b.contains(sep));
            assert(paths::after_last(b, sep) =~= Seq::<char>::empty());
        } else {
            assert(!b.contains(sep)) by {
                assert forall|i: int| 0 <= i < b.len() implies b[i] != sep by {}
            }
            assert(paths::after_last(a, sep) + b =~= paths::after_last(a, sep).push(b[0]));
        }
    } else {
        lemma_after_last_append(a, b.drop_last(), sep);
        if b.last() == sep {
            assert(b.contains(sep));
        } else {
            if b.drop_last().contains(sep) {
                let i = choose|i: int| 0 <= i < b.drop_last().len() && b.drop_last()[i] == sep;
                assert(b[i] == sep);
                assert(b.contains(sep));
            } else {
                if b.contains(sep) {
                    let i = choose|i: int| 0 <= i < b.len() && b[i] == sep;
                    assert(b.drop_last()[i] == sep);
                }
                assert(paths::after_last(a, sep) + b =~= (paths::after_last(a, sep)
                    + b.drop_last()).push(b.last()));
            }
        }
    }
}


// ---------------------------------------------------------------------------
// Kebab-case is a normal form
// ---------------------------------------------------------------------------

proof fn lemma_kebab_char_idempotent(c: char)
    ensures
        config::kebab_char(config::kebab_char(c)) == config::kebab_char(c),
{
    let k = config::kebab_char(c);
    if text::is_ascii_char(c) && text::is_ascii_alnum(c) {
        assert(text::is_ascii_char(k) && text::is_ascii_alnum(k));
    }
}

/// No piece of a split holds the separator, and every other character of a piece
/// satisfies `p` when every character of the text other than the separator does.
proof fn lemma_split_pieces(t: Seq<char>, sep: char, p: spec_fn(char) -> bool)
    requires
        forall|k: int| 0 <= k < t.len() && t[k] != sep ==> p(#[trigger] t[k]),
    ensures
        forall|i: int, j: int|
            0 <= i < text::split_on(t, sep).len() && 0 <= j < text::split_on(t, sep)[i].len()
                ==> #[trigger] text::split_on(t, sep)[i][j] != sep && p(text::split_on(t, sep)[i][j]),
    decreases t.len(),
{
    if t.len() > 0 {
        let init = t.drop_last();
        assert forall|k: int| 0 <= k < init.len() && init[k] != sep implies p(#[trigger] init[k]) by {
            assert(init[k] == t[k]);
        }
        lemma_split_pieces(init, sep, p);
        text::lemma_split_on_len(init, sep);
        if t.last() != sep {
            assert(p(t[t.len() - 1]));
        }
    }
}

/// What holds of every piece holds of every non-empty piece.
proof fn lemma_non_empty_pieces_keep(ps: Seq<Seq<char>>, q: spec_fn(Seq<char>) -> bool)
    requires
        forall|i: int| 0 <= i < ps.len() ==> q(#[trigger] ps[i]),
    ensures
        forall|i: int|
            0 <= i < text::non_empty_pieces(ps).len() ==> q(#[trigger] text::non_empty_pieces(ps)[i]),
    decreases ps.len(),
{
    if ps.len() > 0 {
        let init = ps.drop_last();
        assert forall|i: int| 0 <= i < init.len() implies q(#[trigger] init[i]) by {
            assert(init[i] == ps[i]);
        }
        lemma_non_empty_pieces_keep(init, q);
        assert(q(ps[ps.len() - 1]));
        let prev = text::non_empty_pieces(init);
        let cur = text::non_empty_pieces(ps);
        assert forall|i: int| 0 <= i < cur.len() implies q(#[trigger] cur[i]) by {
            if i < prev.len() {
                assert(cur[i] == prev[i]);
            } else {
                assert(cur[i] == ps.last());
            }
        }
    }
}

proof fn lemma_non_empty_pieces_same(ps: Seq<Seq<char>>)
    requires
        forall|i: int| 0 <= i < ps.len() ==> (#[trigger] ps[i]).len() > 0,
    ensures
        text::non_empty_pieces(ps) == ps,
    decreases ps.len(),
{
    if ps.len() > 0 {
        let init = ps.drop_last();
        assert forall|i: int| 0 <= i < init.len() implies (#[trigger] init[i]).len() > 0 by {
            assert(init[i] == ps[i]);
        }
        lemma_non_empty_pieces_same(init);
        assert(ps[ps.len() - 1].len() > 0);
        assert(init.push(ps.last()) =~= ps);
    }
}

/// Every character of a join is the separator or a character of a piece that
/// satisfies `p`.
proof fn lemma_join_chars(ws: Seq<Seq<char>>, sep: char, p: spec_fn(char) -> bool)
    requires
        forall|i: int, j: int| 0 <= i < ws.len() && 0 <= j < ws[i].len() ==> p(#[trigger] ws[i][j]),
    ensures
        forall|k: int|
            0 <= k < text::join_with(ws, sep).len() ==> #[trigger] text::join_with(ws, sep)[k] == sep
                || p(text::join_with(ws, sep)[k]),
    decreases ws.len(),
{
    if ws.len() > 1 {
        let init = ws.drop_last();
        assert forall|i: int, j: int| 0 <= i < init.len() && 0 <= j < init[i].len() implies p(
            #[trigger] init[i][j],
        ) by {
            assert(init[i] == ws[i]);
        }
        lemma_join_chars(init, sep, p);
        let a = text::join_with(init, sep);
        let w = ws.last();
        assert forall|k: int| 0 <= k < text::join_with(ws, sep).len() implies #[trigger] text::join_with(
            ws,
            sep,
        )[k] == sep || p(text::join_with(ws, sep)[k]) by {
            if k < a.len() {
                assert(text::join_with(ws, sep)[k] == a[k]);
            } else if k > a.len() {
                assert(text::join_with(ws, sep)[k] == w[k - a.len() - 1]);
                assert(p(ws[ws.len() - 1][k - a.len() - 1]));
            }
        }
    } else if ws.len() == 1 {
        assert forall|k: int| 0 <= k < text::join_with(ws, sep).len() implies #[trigger] text::join_with(
            ws,
            sep,
        )[k] == sep || p(text::join_with(ws, sep)[k]) by {
            assert(p(ws[0][k]));
        }
    }
}

/// Splitting a word without separators gives the word.
proof fn lemma_split_word(w: Seq<char>, sep: char)
    requires
        !w.contains(sep),
    ensures
        text::split_on(w, sep) == seq![w],
    decreases w.len(),
{
    if w.len() > 0 {
        let init = w.drop_last();
        assert(!init.contains(sep)) by {
            if init.contains(sep) {
                let i = choose|i: int| 0 <= i < init.len() && init[i] == sep;
                assert(w[i] == sep);
            }
        }
        lemma_split_word(init, sep);
        assert(w[w.len() - 1] != sep);
        assert(init.push(w.last()) =~= w);
        assert(seq![init].update(0, init.push(w.last())) =~= seq![w]);
    } else {
        assert(w =~= Seq::<char>::empty());
    }
}

/// Splitting `x`, a separator and a word without separators gives the pieces of
/// `x` and then the word.
proof fn lemma_split_after_sep(x: Seq<char>, w: Seq<char>, sep: char)
    requires
        !w.contains(sep),
    ensures
        text::split_on(x + seq![sep] + w, sep) == text::split_on(x, sep).push(w),
    decreases w.len(),
{
    let xs = x + seq![sep];
    if w.len() == 0 {
        assert(xs + w =~= x.push(sep));
        assert(x.push(sep).drop_last() =~= x);
        assert(w =~= Seq::<char>::empty());
    } else {
        let init = w.drop_last();
        assert(!init.contains(sep)) by {
            if init.contains(sep) {
                let i = choose|i: int| 0 <= i < init.len() && init[i] == sep;
                assert(w[i] == sep);
            }
        }
        lemma_split_after_sep(x, init, sep);
        assert((xs + w).drop_last() =~= xs + init);
        assert(w[w.len() - 1] != sep);
        let ps = text::split_on(x, sep).push(init);
        assert(init.push(w.last()) =~= w);
        assert(ps.update(ps.len() - 1, ps.last().push(w.last())) =~= text::split_on(x, sep).push(w));
    }
}

/// Splitting a join of words without separators gives the words back.
proof fn lemma_split_join(ws: Seq<Seq<char>>, sep: char)
    requires
        ws.len() > 0,
        forall|i: int| 0 <= i < ws.len() ==> !(#[trigger] ws[i]).contains(sep),
    ensures
        text::split_on(text::join_with(ws, sep), sep) == ws,
    decreases ws.len(),
{
    if ws.len() == 1 {
        lemma_split_word(ws[0], sep);
        assert(seq![ws[0]] =~= ws);
    } else {
        let init = ws.drop_last();
        assert forall|i: int| 0 <= i < init.len() implies !(#[trigger] init[i]).contains(sep) by {
            assert(init[i] == ws[i]);
        }
        lemma_split_join(init, sep);
        assert(!ws[ws.len() - 1].contains(sep));
        lemma_split_after_sep(text::join_with(init, sep), ws.last(), sep);
        assert(init.push(ws.last()) =~= ws);
    }
}

/// Kebab-case is a normal form: normalising a normalised name changes nothing.
pub proof fn kebab_case_is_idempotent(s: Seq<char>)
    ensures
        config::kebab_case(config::kebab_case(s)) == config::kebab_case(s),
{
    let fixed = |c: char| config::kebab_char(c) == c;
    let t = s.map_values(|c: char| config::kebab_char(c));
    assert forall|k: int| 0 <= k < t.len() && t[k] != '-' implies fixed(#[trigger] t[k]) by {
        lemma_kebab_char_idempotent(s[k]);
    }
    let ps = text::split_on(t, '-');
    lemma_split_pieces(t, '-', fixed);
    let good = |w: Seq<char>| !w.contains('-') && (forall|j: int| 0 <= j < w.len() ==> fixed(#[trigger] w[j]));
    assert forall|i: int| 0 <= i < ps.len() implies good(#[trigger] ps[i]) by {
        assert forall|j: int| 0 <= j < ps[i].len() implies fixed(#[trigger] ps[i][j]) by {
            assert(ps[i][j] != '-' && fixed(ps[i][j]));
        }
        assert(!ps[i].contains('-')) by {
            if ps[i].contains('-') {
                let j = choose|j: int| 0 <= j < ps[i].len() && ps[i][j] == '-';
                assert(ps[i][j] != '-');
            }
        }
    }
    let ws = text::non_empty_pieces(ps);
    lemma_non_empty_pieces_keep(ps, good);
    text::lemma_non_empty_pieces_all(ps);
    let k = text::join_with(ws, '-');
    assert(k == config::kebab_case(s));
    assert forall|i: int, j: int| 0 <= i < ws.len() && 0 <= j < ws[i].len() implies fixed(
        #[trigger] ws[i][j],
    ) by {
        assert(good(ws[i]));
    }
    lemma_join_chars(ws, '-', fixed);
    assert(k.map_values(|c: char| config::kebab_char(c)) =~= k) by {
        assert forall|i: int| 0 <= i < k.len() implies config::kebab_char(#[trigger] k[i]) == k[i] by {
            if k[i] == '-' {
                assert(config::kebab_char('-') == '-');
            }
        }
    }
    if ws.len() == 0 {
        let e = Seq::<char>::empty();
        assert(k =~= e);
        assert(text::split_on(e, '-') == seq![e]);
        assert(seq![e].drop_last() =~= Seq::<Seq<char>>::empty());
        assert(text::non_empty_pieces(Seq::<Seq<char>>::empty()) == Seq::<Seq<char>>::empty());
        assert(text::non_empty_pieces(seq![e]) =~= Seq::<Seq<char>>::empty());
    } else {
        assert forall|i: int| 0 <= i < ws.len() implies !(#[trigger] ws[i]).contains('-') by {
            assert(good(ws[i]));
        }
        lemma_split_join(ws, '-');
        lemma_non_empty_pieces_same(ws);
    }
}


// ---------------------------------------------------------------------------
// Managed markers
// ---------------------------------------------------------------------------

/// A file whose first line is a marker (a one-line text with no white space at
/// its ends) carries that marker, whatever follows.
pub proof fn first_line_marker_is_found(m: Seq<char>, rest: Seq<char>, skip_shebang: bool)
    requires
        m.len() > 0,
        !m.contains('\n'),
        m.last() != '\r',
        text::trim(m) == m,
        !(skip_shebang && text::has_prefix(m, "#!"@)),
    ensures
        updater::has_marker(m + seq!['\n'] + rest, m, skip_shebang),
{
    let s = m + seq!['\n'] + rest;
    assert forall|j: int| 0 <= j < m.len() implies s[j] != '\n' by {
        assert(s[j] == m[j]);
        if m[j] == '\n' {
            assert(m.contains('\n'));
        }
    }
    text::lemma_index_found(s, '\n', 0, m.len() as int);
    assert(s.take(m.len() as int) =~= m);
    assert(text::strip_cr(m) == m);
    let ls = text::lines(s);
    assert(ls[0] == m);
    let lead = updater::leading_lines(s, updater::MARKER_SEARCH_LINES as int);
    assert(lead.len() > 0);
    assert(lead[0] == m);
}

/// The three markers the templates use are found on the first line of a file.
pub proof fn template_markers_are_found(rest: Seq<char>)
    ensures
        updater::has_marker(updater::MANAGED_MARKER_JS@ + seq!['\n'] + rest, updater::MANAGED_MARKER_JS@, true),
        updater::has_marker(updater::MANAGED_MARKER_HASH@ + seq!['\n'] + rest, updater::MANAGED_MARKER_HASH@, false),
        updater::has_marker(updater::MANAGED_MARKER_HTML@ + seq!['\n'] + rest, updater::MANAGED_MARKER_HTML@, false),
{
    reveal_strlit("// @managed by create-grafana-plugin — do not edit");
    reveal_strlit("# @managed by create-grafana-plugin — do not edit");
    reveal_strlit("<!-- @managed by create-grafana-plugin — do not edit -->");
    reveal_strlit("#!");
    lemma_marker_shape(updater::MANAGED_MARKER_JS@);
    lemma_marker_shape(updater::MANAGED_MARKER_HASH@);
    lemma_marker_shape(updater::MANAGED_MARKER_HTML@);
    assert(updater::MANAGED_MARKER_JS@[0] == '/');
    assert("#!"@[0] == '#');
    assert(updater::MANAGED_MARKER_JS@.take(2)[0] != "#!"@[0]);
    assert(!text::has_prefix(updater::MANAGED_MARKER_JS@, "#!"@));
    first_line_marker_is_found(updater::MANAGED_MARKER_JS@, rest, true);
    first_line_marker_is_found(updater::MANAGED_MARKER_HASH@, rest, false);
    first_line_marker_is_found(updater::MANAGED_MARKER_HTML@, rest, false);
}

proof fn lemma_marker_shape(m: Seq<char>)
    requires
        m.len() > 0,
        !text::is_white_space(m[0]),
        !text::is_white_space(m.last()),
        forall|i: int| 0 <= i < m.len() ==> (#[trigger] m[i]) != '\n',
    ensures
        !m.contains('\n'),
        text::trim(m) == m,
{
    assert(text::trim_start(m) == m);
    assert(text::trim_end(m) == m);
}


// ---------------------------------------------------------------------------
// Resolution
// ---------------------------------------------------------------------------

/// Command-line values win over the configuration file, and a switch given on the
/// command line is on whatever the file says.
pub proof fn command_line_overrides_file(
    s: resolve::ConfigSources,
    args: crate::cli::Args,
    toml: Option<resolve::TomlConfig>,
)
    requires
        resolve::merges(s, args, toml),
    ensures
        args.name matches Some(n) ==> resolve::opt_text(s.name) == Some(n@),
        args.description matches Some(d) ==> resolve::opt_text(s.description) == Some(d@),
        args.author matches Some(a) ==> resolve::opt_text(s.author) == Some(a@),
        args.org matches Some(o) ==> resolve::opt_text(s.org) == Some(o@),
        args.plugin_type matches Some(t) ==> resolve::opt_text(s.plugin_type) == Some(t@),
        args.wasm ==> s.wasm == Some(true),
        args.docker ==> s.docker == Some(true),
        args.mock ==> s.mock == Some(true),
{
}

proof fn lemma_type_name_parses(t: config::PluginType)
    ensures
        config::plugin_type_of(config::lowercase(config::plugin_type_name(t))) == Some(t),
{
    reveal_strlit("panel");
    reveal_strlit("datasource");
    reveal_strlit("data-source");
    reveal_strlit("app");
    let n = config::plugin_type_name(t);
    assert(vstd::utf8::is_ascii_chars(n));
    assert(n.map_values(|c: char| text::ascii_lower(c)) =~= n);
    assert("panel"@.len() == 5);
    assert("datasource"@.len() == 10);
    assert("data-source"@.len() == 11);
    assert("app"@.len() == 3);
    assert("panel"@ != "datasource"@);
    assert("panel"@ != "app"@);
    assert("datasource"@ != "app"@);
    assert("data-source"@ != "app"@);
}

/// An answered question is not asked again: after recording the answer to the
/// open question, a different question (or none) is open.
pub proof fn answered_question_is_closed(
    s: resolve::ConfigSources,
    a: resolve::Answer,
    after: resolve::ConfigSources,
)
    requires
        resolve::open_question(s) matches Some(p) && resolve::answers(a, p),
        resolve::applied(s, a, after),
    ensures
        resolve::open_question(after) != resolve::open_question(s),
{
    if let resolve::Answer::PluginTypeIndex(i) = a {
        lemma_type_name_parses(resolve::type_at_index(i));
    }
}

// ---------------------------------------------------------------------------
// Updates
// ---------------------------------------------------------------------------

/// An update plan names every path once: no two entries have the same
/// components.
pub proof fn plan_paths_are_distinct(outs: Seq<Seq<char>>, plan: Seq<(Seq<char>, int)>, k1: int, k2: int)
    requires
        updater::is_update_plan(outs, plan),
        0 <= k1 < plan.len(),
        0 <= k2 < plan.len(),
        k1 != k2,
    ensures
        paths::components(plan[k1].0) != paths::components(plan[k2].0),
{
    reveal(updater::plan_sorted);
    paths::lemma_components_less_irreflexive(paths::components(plan[k1].0));
    if k1 < k2 {
        assert(paths::components_less(
            paths::components(plan[k1].0),
            paths::components(plan[k2].0),
        ));
    } else {
        assert(paths::components_less(
            paths::components(plan[k2].0),
            paths::components(plan[k1].0),
        ));
    }
}

/// A scaffolded project is recognised by an update: from the `plugin.json` a
/// scaffold writes (id `org-name`, author URL ending in `/org`, the type's name),
/// the same organisation, kebab-case name and plugin type are recovered; and when
/// the project holds what the selected layers write (`Cargo.toml` for WASM, a
/// compose file for Docker, `otel-mock` for the mock generator), the same
/// switches are recovered too.
pub proof fn scaffolded_project_is_rediscovered(
    meta: updater::PluginJson,
    layout: updater::ProjectLayout,
    org: Seq<char>,
    name: Seq<char>,
    t: config::PluginType,
    url_base: Seq<char>,
    has_wasm: bool,
    has_docker: bool,
    has_mock: bool,
    found: config::ProjectConfig,
    port: u16,
)
    requires
        org.len() > 0,
        !org.contains('/'),
        name == config::kebab_case(name),
        meta.id matches Some(id) && id@ == org + seq!['-'] + name,
        meta.author_url matches Some(u) && u@ == url_base + seq!['/'] + org,
        meta.plugin_type matches Some(pt) && pt@ == config::plugin_type_name(t),
        config::config_is_consistent(has_docker, has_mock),
        layout.has_cargo_toml == has_wasm,
        updater::layout_has_docker(layout) == has_docker,
        layout.has_otel_mock_dir == (has_mock && has_docker),
    ensures
        updater::discovery_error(meta) is None,
        updater::discovered(meta, layout, found, port) ==> found.org@ == org && found.name@ == name
            && found.plugin_type == t && found.has_wasm == has_wasm && found.has_docker == has_docker
            && found.has_mock == has_mock,
{
    plugin_id_round_trip(org, name, url_base);
    lemma_type_name_parses(t);
}

/// The same from the text of a scaffolded `plugin.json`: whatever values an
/// update reads at its key paths (id `org-name`, author URL ending in `/org`, the
/// type's name), the organisation, name, type and switches are recovered.
pub proof fn scaffolded_plugin_json_is_rediscovered(
    raw: Seq<char>,
    meta: updater::PluginJson,
    layout: updater::ProjectLayout,
    org: Seq<char>,
    name: Seq<char>,
    t: config::PluginType,
    url_base: Seq<char>,
    has_wasm: bool,
    has_docker: bool,
    has_mock: bool,
    found: config::ProjectConfig,
    port: u16,
)
    requires
        org.len() > 0,
        !org.contains('/'),
        name == config::kebab_case(name),
        updater::json_string_at(raw, updater::id_path()) == Some(org + seq!['-'] + name),
        updater::json_string_at(raw, updater::author_url_path()) == Some(url_base + seq!['/'] + org),
        updater::json_string_at(raw, updater::type_path()) == Some(config::plugin_type_name(t)),
        updater::read_from(meta, raw),
        config::config_is_consistent(has_docker, has_mock),
        layout.has_cargo_toml == has_wasm,
        updater::layout_has_docker(layout) == has_docker,
        layout.has_otel_mock_dir == (has_mock && has_docker),
    ensures
        updater::discovery_error(meta) is None,
        updater::discovered(meta, layout, found, port) ==> found.org@ == org && found.name@ == name
            && found.plugin_type == t && found.has_wasm == has_wasm && found.has_docker == has_docker
            && found.has_mock == has_mock,
{
    scaffolded_project_is_rediscovered(
        meta,
        layout,
        org,
        name,
        t,
        url_base,
        has_wasm,
        has_docker,
        has_mock,
        found,
        port,
    );
}

/// The version marker a scaffold or update writes reads back as written: a
/// version with no surrounding whitespace, and not empty, is what
/// `parse_version_marker` gives for the marker's text.
pub proof fn version_marker_round_trip(version: Seq<char>)
    requires
        version.len() > 0,
        text::trim(version) == version,
    ensures
        updater::marker_version(version) == Some(version),
{
}

/// The JSON files a scaffold writes (`plugin.json`, `package.json`,
/// `tsconfig.json`, `tsconfig.test.json`, `biome.json`) carry no marker and are
/// managed whatever they hold: an update may always rewrite them.
pub proof fn known_json_files_are_managed(content: Seq<char>)
    ensures
        updater::is_managed("plugin.json"@, content),
        updater::is_managed("package.json"@, content),
        updater::is_managed("tsconfig.json"@, content),
        updater::is_managed("tsconfig.test.json"@, content),
        updater::is_managed("biome.json"@, content),
{
    reveal_strlit("plugin.json");
    reveal_strlit("package.json");
    reveal_strlit("tsconfig.json");
    reveal_strlit("tsconfig.test.json");
    reveal_strlit("biome.json");
    let known = updater::known_managed_json_paths();
    assert(text::replace_char("plugin.json"@, '\\', '/') =~= "plugin.json"@);
    assert(text::replace_char("package.json"@, '\\', '/') =~= "package.json"@);
    assert(text::replace_char("tsconfig.json"@, '\\', '/') =~= "tsconfig.json"@);
    assert(text::replace_char("tsconfig.test.json"@, '\\', '/') =~= "tsconfig.test.json"@);
    assert(text::replace_char("biome.json"@, '\\', '/') =~= "biome.json"@);
    assert(known[0] == "plugin.json"@);
    assert(known[1] == "package.json"@);
    assert(known[2] == "tsconfig.json"@);
    assert(known[3] == "tsconfig.test.json"@);
    assert(known[4] == "biome.json"@);
}

/// Settings the command line leaves out come from the file: a text setting not
/// given on the command line is the file's (none without a file), and a switch not
/// passed is the file's value (unset without a file); a switch passed is on.
pub proof fn file_fills_missing_options(
    s: resolve::ConfigSources,
    args: crate::cli::Args,
    toml: Option<resolve::TomlConfig>,
)
    requires
        resolve::merges(s, args, toml),
    ensures
        args.name is None ==> resolve::opt_text(s.name) == match toml {
            Some(t) => resolve::opt_text(t.name),
            None => None,
        },
        args.description is None ==> resolve::opt_text(s.description) == match toml {
            Some(t) => resolve::opt_text(t.description),
            None => None,
        },
        args.author is None ==> resolve::opt_text(s.author) == match toml {
            Some(t) => resolve::opt_text(t.author),
            None => None,
        },
        args.org is None ==> resolve::opt_text(s.org) == match toml {
            Some(t) => resolve::opt_text(t.org),
            None => None,
        },
        args.plugin_type is None ==> resolve::opt_text(s.plugin_type) == match toml {
            Some(t) => resolve::opt_text(t.plugin_type),
            None => None,
        },
        !args.wasm ==> s.wasm == match toml {
            Some(t) => t.wasm,
            None => None,
        },
        !args.docker ==> s.docker == match toml {
            Some(t) => t.docker,
            None => None,
        },
        !args.mock ==> s.mock == match toml {
            Some(t) => t.mock,
            None => None,
        },
        args.wasm ==> s.wasm == Some(true),
        args.docker ==> s.docker == Some(true),
        args.mock ==> s.mock == Some(true),
{
}

proof fn lemma_files_under_holds(
    tree: Seq<(Seq<char>, Seq<u8>)>,
    dir: Seq<char>,
    i: int,
    rest: Seq<char>,
    c: Seq<u8>,
)
    requires
        0 <= i < tree.len(),
        tree[i] == (dir + seq!['/'] + rest, c),
    ensures
        template::files_under(tree, dir).contains((c, rest)),
    decreases tree.len(),
{
    let p = dir + seq!['/'] + rest;
    let r = template::files_under(tree.drop_last(), dir);
    if i == tree.len() - 1 {
        assert(p.take(dir.len() + 1 as int) =~= dir.push('/'));
        assert(text::has_prefix(p, dir.push('/')));
        assert(p.skip(dir.len() as int + 1) =~= rest);
        assert(template::files_under(tree, dir) == r.push((c, rest)));
        assert(r.push((c, rest))[r.len() as int] == (c, rest));
    } else {
        assert(tree.drop_last()[i] == tree[i]);
        lemma_files_under_holds(tree.drop_last(), dir, i, rest, c);
        let k = choose|k: int| 0 <= k < r.len() && r[k] == (c, rest);
        let (lp, lc) = tree.last();
        if text::has_prefix(lp, dir.push('/')) {
            assert(template::files_under(tree, dir)[k] == r[k]);
        } else {
            assert(template::files_under(tree, dir) == r);
        }
    }
}

proof fn lemma_collected_holds(
    tree: Seq<(Seq<char>, Seq<u8>)>,
    dirs: Seq<Seq<char>>,
    j: int,
    x: (Seq<u8>, Seq<char>),
)
    requires
        0 <= j < dirs.len(),
        template::files_under(tree, dirs[j]).contains(x),
    ensures
        template::collected_files(tree, dirs).contains(x),
    decreases dirs.len(),
{
    let a = template::collected_files(tree, dirs.drop_last());
    let b = template::files_under(tree, dirs.last());
    assert(template::collected_files(tree, dirs) == a + b);
    if j == dirs.len() - 1 {
        let k = choose|k: int| 0 <= k < b.len() && b[k] == x;
        assert((a + b)[a.len() + k] == x);
    } else {
        assert(dirs.drop_last()[j] == dirs[j]);
        lemma_collected_holds(tree, dirs.drop_last(), j, x);
        let k = choose|k: int| 0 <= k < a.len() && a[k] == x;
        assert((a + b)[k] == x);
    }
}

/// Every embedded file below a directory of the stack is collected, with its path
/// within that directory: a file at `dir/rest` (whatever `rest` is, dot files
/// included) gives the pair of its contents and `rest`.
pub proof fn embedded_files_are_collected(
    tree: Seq<template::EmbeddedFile>,
    dirs: Seq<Seq<char>>,
    i: int,
    j: int,
    rest: Seq<char>,
)
    requires
        0 <= i < tree.len(),
        0 <= j < dirs.len(),
        tree[i].path@ == dirs[j] + seq!['/'] + rest,
    ensures
        template::collected_files(template::embedded_view(tree), dirs).contains((tree[i].contents@, rest)),
{
    let tv = template::embedded_view(tree);
    assert(tv[i] == (dirs[j] + seq!['/'] + rest, tree[i].contents@));
    lemma_files_under_holds(tv, dirs[j], i, rest, tree[i].contents@);
    lemma_collected_holds(tv, dirs, j, (tree[i].contents@, rest));
}

/// The digits of `decimal_text(n)` are decimal digits whose value is `n`.
pub proof fn decimal_text_reads_back(n: nat)
    ensures
        engine::decimal_text(n).len() > 0,
        text::all_ascii_digits(engine::decimal_text(n)),
        text::decimal_value(engine::decimal_text(n)) == n,
    decreases n,
{
    let digits = seq!['0', '1', '2', '3', '4', '5', '6', '7', '8', '9'];
    let d = digits[(n % 10) as int];
    assert(text::is_ascii_digit(d));
    assert((d as u32) - ('0' as u32) == n % 10);
    if n >= 10 {
        decimal_text_reads_back(n / 10);
        let s = engine::decimal_text(n / 10);
        assert(engine::decimal_text(n) == s.push(d));
        assert(s.push(d).drop_last() =~= s);
        assert forall|i: int| 0 <= i < s.push(d).len() implies text::is_ascii_digit(#[trigger] s.push(d)[i]) by {
            if i < s.len() {
                assert(s.push(d)[i] == s[i]);
            }
        }
    } else {
        let s = seq![d];
        assert(s.drop_last() =~= Seq::<char>::empty());
        assert(text::decimal_value(Seq::<char>::empty()) == 0);
    }
}

/// A template that names `port_offset` renders it as the decimal digits of the
/// context's port offset (the one an update reads from the compose file), with
/// the literal text around the tag kept.
pub proof fn port_offset_is_rendered(
    c: template::TemplateContext,
    before: Seq<char>,
    after: Seq<char>,
    out: Option<Seq<char>>,
)
    requires
        engine::literal_text(before),
        engine::literal_text(after),
        engine::renders_pieces(
            before + "{{ port_offset }}"@ + after,
            template::text_fields(c),
            template::flag_fields(c),
            template::number_fields(c),
            out,
        ),
    ensures
        out == Some(before + engine::decimal_text(c.port_offset as nat) + after),
        text::decimal_value(engine::decimal_text(c.port_offset as nat)) == c.port_offset,
{
    decimal_text_reads_back(c.port_offset as nat);
    reveal_strlit("{{ port_offset }}");
    reveal_strlit("port_offset");
    reveal_strlit("plugin_name");
    reveal_strlit("plugin_description");
    reveal_strlit("author");
    reveal_strlit("org");
    reveal_strlit("plugin_type");
    reveal_strlit("plugin_id");
    reveal_strlit("crate_name");
    reveal_strlit("current_year");
    reveal_strlit("today");
    reveal_strlit("pascal_case_name");
    let k = "port_offset"@;
    let texts = template::text_fields(c);
    let flags = template::flag_fields(c);
    let numbers = template::number_fields(c);
    assert(k.len() == 11 && k[1] == 'o');
    assert(k != "plugin_name"@) by {
        assert("plugin_name"@[1] == 'l');
    }
    assert(k != "plugin_type"@) by {
        assert("plugin_type"@[1] == 'l');
    }
    assert("plugin_description"@.len() == 18);
    assert("author"@.len() == 6);
    assert("org"@.len() == 3);
    assert("plugin_id"@.len() == 9);
    assert("crate_name"@.len() == 10);
    assert("current_year"@.len() == 12);
    assert("today"@.len() == 5);
    assert("pascal_case_name"@.len() == 16);
    assert(!texts.dom().contains(k));
    assert(numbers.dom().contains(k) && numbers[k] == c.port_offset as int);
    assert(engine::simple_key(k)) by {
        assert(k.take(4) != seq!['t', 'r', 'u', 'e']) by {
            assert(k.take(4)[0] == 'p');
        }
        assert(k.take(5) != seq!['f', 'a', 'l', 's', 'e']) by {
            assert(k.take(5)[0] == 'p');
        }
    }
    let e = Seq::<engine::TemplatePiece>::empty();
    let p1 = seq![engine::TemplatePiece::Text(before)];
    let p2 = p1.push(engine::TemplatePiece::Variable(k));
    let ps = p2.push(engine::TemplatePiece::Text(after));
    assert(p1.drop_last() =~= e);
    assert(p2.drop_last() =~= p1);
    assert(ps.drop_last() =~= p2);
    assert(engine::pieces_source(e) == Seq::<char>::empty());
    assert(engine::pieces_output(e, texts, flags, numbers) == Seq::<char>::empty());
    assert(engine::pieces_source(p1) =~= before);
    assert(engine::pieces_source(p2) =~= before + seq!['{', '{', ' '] + k + seq![' ', '}', '}']);
    assert(engine::pieces_source(ps) =~= before + "{{ port_offset }}"@ + after);
    assert(engine::pieces_output(p1, texts, flags, numbers) =~= before);
    assert(engine::pieces_output(p2, texts, flags, numbers) =~= before + engine::decimal_text(
        c.port_offset as nat,
    ));
    assert(engine::pieces_output(ps, texts, flags, numbers) =~= before + engine::decimal_text(
        c.port_offset as nat,
    ) + after);
    assert(engine::piece_ok(ps[0], texts, flags, numbers));
    assert(engine::piece_ok(ps[1], texts, flags, numbers));
    assert(engine::piece_ok(ps[2], texts, flags, numbers));
    assert(engine::pieces_ok(ps, texts, flags, numbers));
}

proof fn lemma_trim_quote(q: Seq<char>, body: Seq<char>, c: char)
    requires
        q == Seq::<char>::empty() || q == seq!['"'] || q == seq!['\''],
        body.len() > 0,
        body[0] != c,
        body.last() != c,
    ensures
        text::trim_char(q + body + q, c) == if q == seq![c] { body } else { q + body + q },
{
    let x = q + body + q;
    if q == seq![c] {
        assert(x[0] == c);
        assert(x.drop_first() =~= body + q);
        assert(text::trim_start_char(body + q, c) == body + q);
        assert(text::trim_start_char(x, c) == body + q);
        assert((body + q).last() == c);
        assert((body + q).drop_last() =~= body);
        assert(text::trim_end_char(body, c) == body);
        assert(text::trim_end_char(body + q, c) == body);
    } else {
        assert(x.len() > 0);
        if q.len() > 0 {
            assert(x[0] == q[0] && q[0] != c);
            assert(x.last() == q[0]);
        } else {
            assert(x =~= body);
        }
        assert(text::trim_start_char(x, c) == x);
        assert(text::trim_end_char(x, c) == x);
    }
}

/// The Grafana host port is read whatever quotes surround the port mapping: for a
/// host port written in decimal digits, the compose entries `- h:3000`,
/// `- "h:3000"` and `- 'h:3000'` all give that port.
pub proof fn host_port_quotes_do_not_matter(h: Seq<char>, q: Seq<char>)
    requires
        h.len() > 0,
        text::all_ascii_digits(h),
        text::decimal_value(h) <= 65535,
        q == Seq::<char>::empty() || q == seq!['"'] || q == seq!['\''],
    ensures
        updater::grafana_host_port(seq!['-', ' '] + q + h + ":3000"@ + q) == Some(
            text::decimal_value(h) as u16,
        ),
{
    reveal_strlit(":3000");
    let body = h + ":3000"@;
    let x = q + body + q;
    let line = seq!['-', ' '] + q + h + ":3000"@ + q;
    assert(line =~= seq!['-'] + (seq![' '] + x));
    assert(body[0] == h[0] && text::is_ascii_digit(h[0]));
    assert(body.last() == '0');
    // the leading `-` goes
    assert(line[0] == '-');
    assert(line.drop_first() =~= seq![' '] + x);
    assert(text::trim_start_char(seq![' '] + x, '-') == seq![' '] + x);
    assert(text::trim_start_char(line, '-') == seq![' '] + x);
    // then the white space around
    assert(x.len() > 0);
    assert(!text::is_white_space(x[0])) by {
        if q.len() > 0 {
            assert(x[0] == q[0]);
        } else {
            assert(x[0] == h[0]);
        }
    }
    assert(!text::is_white_space(x.last())) by {
        if q.len() > 0 {
            assert(x.last() == q[0]);
        } else {
            assert(x.last() == '0');
        }
    }
    assert(text::is_white_space(' '));
    assert((seq![' '] + x).drop_first() =~= x);
    assert(text::trim_start(x) == x);
    assert(text::trim_start(seq![' '] + x) == x);
    assert(text::trim_end(x) == x);
    assert(text::trim(seq![' '] + x) == x);
    // then the quotes
    lemma_trim_quote(q, body, '"');
    let y = text::trim_char(x, '"');
    if q == seq!['\''] {
        assert(y == x);
        lemma_trim_quote(q, body, '\'');
        assert(text::trim_char(y, '\'') == body);
    } else {
        assert(y == body) by {
            if q.len() == 0 {
                assert(x =~= body);
            }
        }
        lemma_trim_quote(Seq::<char>::empty(), body, '\'');
        assert(Seq::<char>::empty() + body + Seq::<char>::empty() =~= body);
        assert(text::trim_char(y, '\'') == body);
    }
    // the `:3000` suffix and the digits before it
    assert(body.skip(body.len() - 5) =~= ":3000"@);
    assert(text::has_suffix(body, ":3000"@));
    assert(body.take(body.len() - 5) =~= h);
    assert(h[0] != '+');
}

} // verus!
