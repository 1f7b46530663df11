//! Niri layer rules: blur and x-ray of the shell's own surfaces, kept in the
//! `background-effect` sub-block of each surface's `layer-rule` in `rules.kdl`.
use vstd::prelude::*;
use crate::settings::{opt_view, spec_with_blur, spec_with_xray, with_blur_result, SettingsService, SettingsView};
use crate::text::{
    append_chars, chars_of, contains, contains_char, contains_chars, ends_with, ends_with_chars,
    eq_chars, join, join_chars, lines, lines_go, lines_of, starts_with, starts_with_chars,
    string_of, string_views, strip_cr, sub_chars, trim, trim_bounds, views, bytes_len, byte_prefix,
    lemma_bytes_concat, utf8_width, bytes_of,
};

verus! {

// ---------------------------------------------------------------------------
// The model
// ---------------------------------------------------------------------------

/// The layer namespace of a module of the shell.
pub open spec fn spec_namespace(m: Seq<char>) -> Option<Seq<char>> {
    if m == "bar"@ {
        Some("cos-bar"@)
    } else if m == "quick_settings"@ {
        Some("cos-quick-settings"@)
    } else if m == "calendar"@ {
        Some("cos-calendar"@)
    } else if m == "launcher"@ {
        Some("cos-launcher"@)
    } else if m == "tray"@ {
        Some("cos-tray-menu"@)
    } else {
        None
    }
}

/// The layer namespaces of all modules, in the order they are reset.
pub open spec fn layer_namespaces() -> Seq<Seq<char>> {
    seq!["cos-bar"@, "cos-quick-settings"@, "cos-calendar"@, "cos-launcher"@, "cos-tray-menu"@]
}

/// What one character adds to the brace depth.
pub open spec fn brace_step(c: char) -> int {
    if c == '{' {
        1
    } else if c == '}' {
        -1
    } else {
        0
    }
}

/// Opening braces minus closing braces in `t`.
pub open spec fn brace_delta(t: Seq<char>) -> int
    decreases t.len(),
{
    if t.len() == 0 {
        0
    } else {
        brace_delta(t.drop_last()) + brace_step(t.last())
    }
}

/// The indentation taken from a line: as many leading bytes as the line has
/// whitespace bytes at both ends. `None` where that count of bytes ends
/// inside a character, a slice that cannot be taken.
pub open spec fn indent_of(line: Seq<char>) -> Option<Seq<char>> {
    byte_prefix(line, bytes_len(line) - bytes_len(trim(line)))
}

/// The total number of characters of the lines.
pub open spec fn total_len(ls: Seq<Seq<char>>) -> nat
    decreases ls.len(),
{
    if ls.len() == 0 {
        0
    } else {
        total_len(ls.drop_last()) + ls.last().len()
    }
}

/// `l` in front of the lines, when there are lines.
pub open spec fn cons(l: Seq<char>, o: Option<Seq<Seq<char>>>) -> Option<Seq<Seq<char>>> {
    match o {
        Some(r) => Some(seq![l] + r),
        None => None,
    }
}

/// `p` in front of the lines, when there are lines.
pub open spec fn prepend_lines(p: Seq<Seq<char>>, o: Option<Seq<Seq<char>>>) -> Option<Seq<Seq<char>>> {
    match o {
        Some(r) => Some(p + r),
        None => None,
    }
}

/// Patching the lines `b` of a layer rule: inside `background-effect { .. }`
/// a line starting with `prop` is rewritten to `prop val` with the line's
/// indentation, and where the sub-block closes without such a line one is
/// inserted before the closing line, four spaces deeper. `in_bg`, `depth`
/// and `found` are the scan's state: inside the sub-block, its brace depth,
/// and whether the property was met. `None` where an indentation cannot be
/// taken.
pub open spec fn bg_go(
    b: Seq<Seq<char>>,
    in_bg: bool,
    depth: int,
    found: bool,
    prop: Seq<char>,
    val: Seq<char>,
) -> Option<Seq<Seq<char>>>
    decreases b.len(),
{
    if b.len() == 0 {
        Some(seq![])
    } else {
        let line = b[0];
        let t = trim(line);
        let rest = b.drop_first();
        if starts_with(t, "background-effect"@) && t.contains('{') {
            cons(line, bg_go(rest, true, brace_delta(t), found, prop, val))
        } else if in_bg {
            let d = depth + brace_delta(t);
            if starts_with(t, prop) {
                match indent_of(line) {
                    None => None,
                    Some(ind) => cons(ind + prop + " "@ + val, bg_go(rest, true, d, true, prop, val)),
                }
            } else if d == 0 {
                if !found {
                    match indent_of(line) {
                        None => None,
                        Some(ind) => cons(
                            ind + "    "@ + prop + " "@ + val,
                            cons(line, bg_go(rest, false, d, found, prop, val)),
                        ),
                    }
                } else {
                    cons(line, bg_go(rest, false, d, found, prop, val))
                }
            } else {
                cons(line, bg_go(rest, true, d, found, prop, val))
            }
        } else {
            cons(line, bg_go(rest, in_bg, depth, found, prop, val))
        }
    }
}

/// The patched lines of a layer rule block.
pub open spec fn spec_patch_block(b: Seq<Seq<char>>, prop: Seq<char>, val: Seq<char>) -> Option<Seq<Seq<char>>> {
    bg_go(b, false, 0, false, prop, val)
}

/// Scanning a layer rule from line `j` on: the brace depth, counted on the
/// trimmed lines, and whether a line holds `pat`. The block ends at the first
/// line where the depth is back to zero (`None` when it never is).
pub open spec fn scan_block(ls: Seq<Seq<char>>, j: int, depth: int, found: bool, pat: Seq<char>) -> (Option<int>, bool)
    decreases ls.len() - j,
{
    if j >= ls.len() {
        (None, found)
    } else {
        let t = trim(ls[j]);
        let d = depth + brace_delta(t);
        let f = found || contains(t, pat);
        if d == 0 {
            (Some(j), f)
        } else {
            scan_block(ls, j + 1, d, f, pat)
        }
    }
}

/// A trimmed line that opens a layer rule.
pub open spec fn is_rule_start(t: Seq<char>) -> bool {
    starts_with(t, "layer-rule"@) && t.contains('{')
}

/// `l` in front of the lines of a result.
pub open spec fn keep(l: Seq<char>, o: Option<(Seq<Seq<char>>, bool)>) -> Option<(Seq<Seq<char>>, bool)> {
    match o {
        Some(rp) => Some((seq![l] + rp.0, rp.1)),
        None => None,
    }
}

/// The lines from `i` on, with every layer rule that holds `pat` patched,
/// and whether one was. A rule block runs to the line where its depth is
/// back to zero, or is its first line alone when that never happens.
pub open spec fn rules_go(ls: Seq<Seq<char>>, i: int, pat: Seq<char>, prop: Seq<char>, val: Seq<char>) -> Option<(Seq<Seq<char>>, bool)>
    decreases ls.len() - i,
{
    if i < 0 || i >= ls.len() {
        Some((seq![], false))
    } else if is_rule_start(trim(ls[i])) {
        let sc = scan_block(ls, i, 0, false, pat);
        let end = match sc.0 {
            Some(x) => if i <= x < ls.len() { x } else { i },
            None => i,
        };
        if sc.1 {
            match spec_patch_block(ls.subrange(i, end + 1), prop, val) {
                None => None,
                Some(pb) => match rules_go(ls, end + 1, pat, prop, val) {
                    None => None,
                    Some(rp) => Some((pb + rp.0, true)),
                },
            }
        } else {
            keep(ls[i], rules_go(ls, i + 1, pat, prop, val))
        }
    } else {
        keep(ls[i], rules_go(ls, i + 1, pat, prop, val))
    }
}

/// The text that marks the layer rule of a namespace.
pub open spec fn namespace_pattern(ns: Seq<char>) -> Seq<char> {
    "match namespace=\""@ + ns + "\""@
}

/// `true` or `false` as written in KDL.
pub open spec fn bool_word(v: bool) -> Seq<char> {
    if v {
        "true"@
    } else {
        "false"@
    }
}

/// Patching `rules.kdl`: the property set in the layer rules of the
/// namespace, lines joined with `\n` and a final newline kept; an error when
/// no layer rule of the namespace is there. `None` where an indentation
/// cannot be taken.
pub open spec fn spec_patch_rules(content: Seq<char>, ns: Seq<char>, prop: Seq<char>, value: bool) -> Option<Result<Seq<char>, Seq<char>>> {
    match rules_go(lines(content), 0, namespace_pattern(ns), prop, bool_word(value)) {
        None => None,
        Some(rp) => if rp.1 {
            Some(Ok(join(rp.0, "\n"@) + (if ends_with(content, "\n"@) { "\n"@ } else { Seq::<char>::empty() })))
        } else {
            Some(Err("No layer-rule found for namespace '"@ + ns + "'"@))
        },
    }
}

/// One patch of a reset: a failed patch leaves the text as it was.
pub open spec fn reset_step(c: Option<Seq<char>>, ns: Seq<char>, prop: Seq<char>, value: bool) -> Option<Seq<char>> {
    match c {
        None => None,
        Some(text) => match spec_patch_rules(text, ns, prop, value) {
            None => None,
            Some(Ok(n)) => Some(n),
            Some(Err(_)) => Some(text),
        },
    }
}

/// Resetting the namespaces in turn: blur on, then x-ray off.
pub open spec fn reset_go(c: Option<Seq<char>>, nss: Seq<Seq<char>>) -> Option<Seq<char>>
    decreases nss.len(),
{
    if nss.len() == 0 {
        c
    } else {
        reset_go(reset_step(reset_step(c, nss[0], "blur"@, true), nss[0], "xray"@, false), nss.drop_first())
    }
}

/// `rules.kdl` with every module's layer rule back to blur on, x-ray off.
pub open spec fn spec_reset_rules(content: Seq<char>) -> Option<Seq<char>> {
    reset_go(Some(content), layer_namespaces())
}

// ---------------------------------------------------------------------------
// Laws
// ---------------------------------------------------------------------------

/// A switch of one property in a module's layer rule, as the blur and x-ray
/// switches patch it; a module without a rule in the text leaves it as it is.
pub open spec fn switch_rule(c: Option<Seq<char>>, m: Seq<char>, prop: Seq<char>, v: bool) -> Option<Seq<char>> {
    match (c, spec_namespace(m)) {
        (None, _) => None,
        (Some(t), None) => Some(t),
        (Some(t), Some(ns)) => match spec_patch_rules(t, ns, prop, v) {
            None => None,
            Some(Ok(n)) => Some(n),
            Some(Err(_)) => Some(t),
        },
    }
}

/// A module switched back to its defaults: blur on, then x-ray off.
pub open spec fn switch_to_defaults(c: Option<Seq<char>>, m: Seq<char>) -> Option<Seq<char>> {
    switch_rule(switch_rule(c, m, "blur"@, true), m, "xray"@, false)
}

/// Resetting `rules.kdl` is switching every module that has a layer rule
/// (shelf, quick settings, calendar, launcher and tray menu) back to blur
/// on and x-ray off, one module after the other; those five are all the
/// modules with a layer rule.
pub proof fn lemma_reset_switches_every_module(content: Seq<char>, m: Seq<char>)
    ensures
        spec_reset_rules(content) == switch_to_defaults(
            switch_to_defaults(
                switch_to_defaults(
                    switch_to_defaults(switch_to_defaults(Some(content), "bar"@), "quick_settings"@),
                    "calendar"@,
                ),
                "launcher"@,
            ),
            "tray"@,
        ),
        spec_namespace(m) is Some ==> (m == "bar"@ || m == "quick_settings"@ || m == "calendar"@ || m == "launcher"@
            || m == "tray"@),
{
    reveal_strlit("bar");
    reveal_strlit("quick_settings");
    reveal_strlit("calendar");
    reveal_strlit("launcher");
    reveal_strlit("tray");
    reveal_strlit("cos-bar");
    reveal_strlit("cos-quick-settings");
    reveal_strlit("cos-calendar");
    reveal_strlit("cos-launcher");
    reveal_strlit("cos-tray-menu");
    let nss = layer_namespaces();
    assert("quick_settings"@.len() == 14 && "bar"@.len() == 3 && "calendar"@.len() == 8);
    assert("launcher"@.len() == 8 && "tray"@.len() == 4);
    assert("launcher"@[0] != "calendar"@[0]);
    assert("launcher"@ != "calendar"@);
    assert(spec_namespace("bar"@) == Some(nss[0]));
    assert(spec_namespace("quick_settings"@) == Some(nss[1]));
    assert(spec_namespace("calendar"@) == Some(nss[2]));
    assert(spec_namespace("launcher"@) == Some(nss[3]));
    assert(spec_namespace("tray"@) == Some(nss[4]));
    let c0 = Some(content);
    let c1 = reset_step(reset_step(c0, nss[0], "blur"@, true), nss[0], "xray"@, false);
    let c2 = reset_step(reset_step(c1, nss[1], "blur"@, true), nss[1], "xray"@, false);
    let c3 = reset_step(reset_step(c2, nss[2], "blur"@, true), nss[2], "xray"@, false);
    let c4 = reset_step(reset_step(c3, nss[3], "blur"@, true), nss[3], "xray"@, false);
    let c5 = reset_step(reset_step(c4, nss[4], "blur"@, true), nss[4], "xray"@, false);
    assert(nss.drop_first().drop_first().drop_first().drop_first().drop_first().len() == 0);
    assert(reset_go(c0, nss) == reset_go(c1, nss.drop_first()));
    assert(reset_go(c1, nss.drop_first()) == reset_go(c2, nss.drop_first().drop_first()));
    assert(reset_go(c2, nss.drop_first().drop_first()) == reset_go(c3, nss.drop_first().drop_first().drop_first()));
    assert(reset_go(c3, nss.drop_first().drop_first().drop_first()) == reset_go(
        c4,
        nss.drop_first().drop_first().drop_first().drop_first(),
    ));
    assert(reset_go(c4, nss.drop_first().drop_first().drop_first().drop_first()) == reset_go(
        c5,
        nss.drop_first().drop_first().drop_first().drop_first().drop_first(),
    ));
    assert(switch_to_defaults(c0, "bar"@) == c1);
    assert(switch_to_defaults(c1, "quick_settings"@) == c2);
    assert(switch_to_defaults(c2, "calendar"@) == c3);
    assert(switch_to_defaults(c3, "launcher"@) == c4);
    assert(switch_to_defaults(c4, "tray"@) == c5);
}

// ---------------------------------------------------------------------------
// Lemmas
// ---------------------------------------------------------------------------

proof fn lemma_total_take_step(s: Seq<Seq<char>>, k: int)
    requires
        0 <= k < s.len(),
    ensures
        total_len(s.take(k + 1)) == total_len(s.take(k)) + s[k].len(),
{
    assert(s.take(k + 1).drop_last() =~= s.take(k));
}

proof fn lemma_total_take_le(s: Seq<Seq<char>>, k: int)
    requires
        0 <= k <= s.len(),
    ensures
        total_len(s.take(k)) <= total_len(s),
    decreases s.len() - k,
{
    if k < s.len() {
        lemma_total_take_step(s, k);
        lemma_total_take_le(s, k + 1);
    } else {
        assert(s.take(k) =~= s);
    }
}

proof fn lemma_total_subrange_le(s: Seq<Seq<char>>, a: int, b: int)
    requires
        0 <= a <= b <= s.len(),
    ensures
        total_len(s.subrange(a, b)) <= total_len(s),
    decreases s.len(),
{
    if b == s.len() {
        if a < b {
            assert(s.subrange(a, b).drop_last() =~= s.drop_last().subrange(a, b - 1));
            lemma_total_subrange_le(s.drop_last(), a, b - 1);
        }
    } else {
        assert(s.subrange(a, b) =~= s.drop_last().subrange(a, b));
        lemma_total_subrange_le(s.drop_last(), a, b);
    }
}

proof fn lemma_append_cons(p: Seq<Seq<char>>, l: Seq<char>, o: Option<Seq<Seq<char>>>)
    ensures
        prepend_lines(p, cons(l, o)) == prepend_lines(p.push(l), o),
{
    match o {
        Some(q) => {
            assert(p + (seq![l] + q) =~= p.push(l) + q);
        },
        None => {},
    }
}

proof fn lemma_total_push(s: Seq<Seq<char>>, x: Seq<char>)
    ensures
        total_len(s.push(x)) == total_len(s) + x.len(),
{
    assert(s.push(x).drop_last() =~= s);
}

proof fn lemma_lines_go_total(s: Seq<char>, cur: Seq<char>, acc: Seq<Seq<char>>)
    ensures
        total_len(lines_go(s, cur, acc)) <= total_len(acc) + cur.len() + s.len(),
    decreases s.len(),
{
    if s.len() == 0 {
        if cur.len() > 0 {
            lemma_total_push(acc, cur);
        }
    } else if s[0] == '\n' {
        lemma_total_push(acc, strip_cr(cur));
        lemma_lines_go_total(s.drop_first(), seq![], acc.push(strip_cr(cur)));
    } else {
        lemma_lines_go_total(s.drop_first(), cur.push(s[0]), acc);
    }
}

proof fn lemma_scan_end(ls: Seq<Seq<char>>, j: int, depth: int, found: bool, pat: Seq<char>)
    requires
        0 <= j,
    ensures
        match scan_block(ls, j, depth, found, pat).0 {
            Some(x) => j <= x < ls.len(),
            None => true,
        },
    decreases ls.len() - j,
{
    if j < ls.len() {
        let t = trim(ls[j]);
        let d = depth + brace_delta(t);
        if d != 0 {
            lemma_scan_end(ls, j + 1, d, found || contains(t, pat), pat);
        }
    }
}

proof fn lemma_reset_none(nss: Seq<Seq<char>>)
    ensures
        reset_go(None, nss) is None,
    decreases nss.len(),
{
    if nss.len() > 0 {
        lemma_reset_none(nss.drop_first());
    }
}

/// The prefix of a result, its lines and whether a rule was patched.
spec fn with_prefix(p: Seq<Seq<char>>, patched: bool, o: Option<(Seq<Seq<char>>, bool)>) -> Option<(Seq<Seq<char>>, bool)> {
    match o {
        Some(rp) => Some((p + rp.0, patched || rp.1)),
        None => None,
    }
}

// ---------------------------------------------------------------------------
// Executable helpers
// ---------------------------------------------------------------------------

fn brace_delta_of(t: &[char]) -> (d: i128)
    ensures
        d == brace_delta(t@),
        -(t@.len() as int) <= d <= t@.len(),
{
    let mut d: i128 = 0;
    let mut i: usize = 0;
    while i < t.len()
        invariant
            i <= t.len(),
            d == brace_delta(t@.take(i as int)),
            -(i as int) <= d <= i,
        decreases t.len() - i,
    {
        assert(t@.take(i + 1).drop_last() =~= t@.take(i as int));
        if t[i] == '{' {
            d = d + 1;
        } else if t[i] == '}' {
            d = d - 1;
        }
        i = i + 1;
    }
    assert(t@.take(t.len() as int) =~= t@);
    d
}

/// The indentation of a line, as `indent_of` takes it.
fn indent_chars(line: &[char]) -> (r: Option<Vec<char>>)
    ensures
        match r {
            Some(v) => indent_of(line@) == Some(v@),
            None => indent_of(line@) is None,
        },
{
    let (a, b) = trim_bounds(line);
    let lead = bytes_of(line, 0, a);
    let trail = bytes_of(line, b, line.len());
    let kb: u128 = lead + trail;
    proof {
        let s = line@;
        let p0 = s.subrange(0, a as int);
        let p1 = s.subrange(a as int, b as int);
        let p2 = s.subrange(b as int, s.len() as int);
        assert(s =~= p0 + p1 + p2);
        lemma_bytes_concat(p0 + p1, p2);
        lemma_bytes_concat(p0, p1);
        assert(kb == bytes_len(s) - bytes_len(trim(s)));
        assert(s.skip(0) =~= s);
        assert(s.take(0) + s =~= s);
    }
    let mut i: usize = 0;
    let mut acc: u128 = 0;
    while acc < kb && i < line.len()
        invariant
            i <= line.len(),
            acc <= kb,
            kb == bytes_len(line@) - bytes_len(trim(line@)),
            byte_prefix(line@, kb as int) == match byte_prefix(line@.skip(i as int), kb - acc) {
                Some(q) => Some(line@.take(i as int) + q),
                None => None,
            },
        decreases line.len() - i,
    {
        let c = line[i];
        let w = utf8_width(c);
        let ghost s = line@.skip(i as int);
        assert(s[0] == c);
        assert(s.drop_first() =~= line@.skip(i + 1));
        if w > kb - acc {
            return None;
        }
        proof {
            match byte_prefix(line@.skip(i + 1), kb - acc - w) {
                Some(q) => {
                    assert(line@.take(i as int) + (seq![c] + q) =~= line@.take(i + 1) + q);
                },
                None => {},
            }
        }
        acc = acc + w;
        i = i + 1;
    }
    if acc == kb {
        proof {
            assert(line@.take(i as int) + Seq::<char>::empty() =~= line@.take(i as int));
        }
        Some(sub_chars(line, 0, i))
    } else {
        None
    }
}

/// Patches the lines of a block; `None` where an indentation cannot be taken.
fn try_patch_block(b: &[Vec<char>], prop: &[char], val: &[char]) -> (r: Option<Vec<Vec<char>>>)
    requires
        total_len(views(b@)) <= usize::MAX,
    ensures
        match r {
            Some(v) => spec_patch_block(views(b@), prop@, val@) == Some(views(v@)),
            None => spec_patch_block(views(b@), prop@, val@) is None,
        },
{
    let ghost bs = views(b@);
    let bg = chars_of("background-effect");
    let sp = chars_of(" ");
    let four = chars_of("    ");
    let mut out: Vec<Vec<char>> = Vec::new();
    let mut in_bg = false;
    let mut depth: i128 = 0;
    let mut found = false;
    let mut k: usize = 0;
    proof {
        assert(bs.skip(0) =~= bs);
        assert(views(out@) + bs =~= bs);
        assert(bs.take(0) =~= Seq::<Seq<char>>::empty());
    }
    while k < b.len()
        invariant
            k <= b.len(),
            bs == views(b@),
            bg@ == "background-effect"@,
            sp@ == " "@,
            four@ == "    "@,
            total_len(bs) <= usize::MAX,
            -(total_len(bs.take(k as int)) as int) <= depth <= total_len(bs.take(k as int)),
            spec_patch_block(bs, prop@, val@) == prepend_lines(
                views(out@),
                bg_go(bs.skip(k as int), in_bg, depth as int, found, prop@, val@),
            ),
        decreases b.len() - k,
    {
        let line = &b[k];
        let ghost rest = bs.skip(k as int);
        assert(rest[0] == line@);
        assert(rest.drop_first() =~= bs.skip(k + 1));
        proof {
            lemma_total_take_step(bs, k as int);
            lemma_total_take_le(bs, k + 1);
        }
        let (ta, tb) = trim_bounds(line.as_slice());
        let t = sub_chars(line.as_slice(), ta, tb);
        let dt = brace_delta_of(t.as_slice());
        let ghost old_out = views(out@);
        if starts_with_chars(t.as_slice(), bg.as_slice()) && contains_char(t.as_slice(), '{') {
            proof {
                lemma_append_cons(old_out, line@, bg_go(bs.skip(k + 1), true, dt as int, found, prop@, val@));
            }
            out.push(line.clone());
            assert(views(out@) =~= old_out.push(line@));
            in_bg = true;
            depth = dt;
        } else if in_bg {
            let d = depth + dt;
            if starts_with_chars(t.as_slice(), prop) {
                match indent_chars(line.as_slice()) {
                    None => {
                        return None;
                    },
                    Some(ind) => {
                        let mut nl = ind;
                        append_chars(&mut nl, prop);
                        append_chars(&mut nl, sp.as_slice());
                        append_chars(&mut nl, val);
                        proof {
                            lemma_append_cons(old_out, nl@, bg_go(bs.skip(k + 1), true, d as int, true, prop@, val@));
                        }
                        out.push(nl);
                        assert(views(out@) =~= old_out.push(nl@));
                        found = true;
                    },
                }
                depth = d;
            } else if d == 0 {
                if !found {
                    match indent_chars(line.as_slice()) {
                        None => {
                            return None;
                        },
                        Some(ind) => {
                            let mut nl = ind;
                            append_chars(&mut nl, four.as_slice());
                            append_chars(&mut nl, prop);
                            append_chars(&mut nl, sp.as_slice());
                            append_chars(&mut nl, val);
                            proof {
                                lemma_append_cons(
                                    old_out,
                                    nl@,
                                    cons(line@, bg_go(bs.skip(k + 1), false, d as int, found, prop@, val@)),
                                );
                                lemma_append_cons(
                                    old_out.push(nl@),
                                    line@,
                                    bg_go(bs.skip(k + 1), false, d as int, found, prop@, val@),
                                );
                            }
                            out.push(nl);
                            out.push(line.clone());
                            assert(views(out@) =~= old_out.push(nl@).push(line@));
                        },
                    }
                } else {
                    proof {
                        lemma_append_cons(old_out, line@, bg_go(bs.skip(k + 1), false, d as int, found, prop@, val@));
                    }
                    out.push(line.clone());
                    assert(views(out@) =~= old_out.push(line@));
                }
                in_bg = false;
                depth = d;
            } else {
                proof {
                    lemma_append_cons(old_out, line@, bg_go(bs.skip(k + 1), true, d as int, found, prop@, val@));
                }
                out.push(line.clone());
                assert(views(out@) =~= old_out.push(line@));
                depth = d;
            }
        } else {
            proof {
                lemma_append_cons(old_out, line@, bg_go(bs.skip(k + 1), in_bg, depth as int, found, prop@, val@));
            }
            out.push(line.clone());
            assert(views(out@) =~= old_out.push(line@));
        }
        k = k + 1;
    }
    proof {
        assert(bs.skip(k as int) =~= Seq::<Seq<char>>::empty());
        assert(views(out@) + Seq::<Seq<char>>::empty() =~= views(out@));
    }
    Some(out)
}


fn namespace_at(i: usize) -> (r: &'static str)
    requires
        i < 5,
    ensures
        r@ == layer_namespaces()[i as int],
{
    if i == 0 {
        "cos-bar"
    } else if i == 1 {
        "cos-quick-settings"
    } else if i == 2 {
        "cos-calendar"
    } else if i == 3 {
        "cos-launcher"
    } else {
        "cos-tray-menu"
    }
}

/// Patches `rules.kdl`; `None` where an indentation cannot be taken.
fn try_patch_rules(content: &str, ns: &str, prop: &str, value: bool) -> (r: Option<Result<String, String>>)
    ensures
        match r {
            None => spec_patch_rules(content@, ns@, prop@, value) is None,
            Some(Ok(t)) => spec_patch_rules(content@, ns@, prop@, value) == Some(Ok::<Seq<char>, Seq<char>>(t@)),
            Some(Err(e)) => spec_patch_rules(content@, ns@, prop@, value) == Some(Err::<Seq<char>, Seq<char>>(e@)),
        },
{
    let cs = chars_of(content);
    let ls = lines_of(cs.as_slice());
    let ghost l = views(ls@);
    proof {
        lemma_lines_go_total(cs@, Seq::<char>::empty(), Seq::<Seq<char>>::empty());
        assert(total_len(Seq::<Seq<char>>::empty()) == 0);
        assert(l == lines_go(cs@, Seq::<char>::empty(), Seq::<Seq<char>>::empty()));
        assert(cs@.len() == cs.len());
    }
    let nsc = chars_of(ns);
    let propc = chars_of(prop);
    let mut pat = chars_of("match namespace=\"");
    append_chars(&mut pat, nsc.as_slice());
    let quote = chars_of("\"");
    append_chars(&mut pat, quote.as_slice());
    let valc = if value { chars_of("true") } else { chars_of("false") };
    let rule = chars_of("layer-rule");
    let ghost g_pat = namespace_pattern(ns@);
    let ghost g_val = bool_word(value);
    assert(pat@ =~= g_pat);
    let mut out: Vec<Vec<char>> = Vec::new();
    let mut patched = false;
    let mut i: usize = 0;
    assert(views(out@) + Seq::<Seq<char>>::empty() =~= Seq::<Seq<char>>::empty());
    while i < ls.len()
        invariant
            i <= ls.len(),
            l == views(ls@),
            l == lines(content@),
            total_len(l) <= usize::MAX,
            pat@ == g_pat,
            g_pat == namespace_pattern(ns@),
            valc@ == g_val,
            g_val == bool_word(value),
            propc@ == prop@,
            rule@ == "layer-rule"@,
            rules_go(l, 0, g_pat, prop@, g_val) == with_prefix(views(out@), patched, rules_go(l, i as int, g_pat, prop@, g_val)),
        decreases ls.len() - i,
    {
        let (ta, tb) = trim_bounds(ls[i].as_slice());
        let t = sub_chars(ls[i].as_slice(), ta, tb);
        let ghost old_out = views(out@);
        let ghost old_patched = patched;
        if starts_with_chars(t.as_slice(), rule.as_slice()) && contains_char(t.as_slice(), '{') {
            let mut j: usize = i;
            let mut depth: i128 = 0;
            let mut found = false;
            let mut done = false;
            let mut end: usize = i;
            proof {
                lemma_total_take_le(l, i as int);
            }
            while j < ls.len() && !done
                invariant
                    i <= j <= ls.len(),
                    l == views(ls@),
                    total_len(l) <= usize::MAX,
                    pat@ == g_pat,
                    -(total_len(l.take(j as int)) as int) <= depth <= total_len(l.take(j as int)),
                    done ==> i <= end < ls.len() && scan_block(l, i as int, 0, false, g_pat) == (Some(end as int), found),
                    !done ==> scan_block(l, i as int, 0, false, g_pat) == scan_block(l, j as int, depth as int, found, g_pat),
                decreases ls.len() - j + (if done { 0int } else { 1int }),
            {
                proof {
                    lemma_total_take_step(l, j as int);
                    lemma_total_take_le(l, j + 1);
                }
                let (ua, ub) = trim_bounds(ls[j].as_slice());
                let u = sub_chars(ls[j].as_slice(), ua, ub);
                let d = depth + brace_delta_of(u.as_slice());
                let f = found || contains_chars(u.as_slice(), pat.as_slice());
                if d == 0 {
                    end = j;
                    found = f;
                    done = true;
                } else {
                    depth = d;
                    found = f;
                    j = j + 1;
                }
            }
            proof {
                lemma_scan_end(l, i as int, 0, false, g_pat);
            }
            let end_idx: usize = if done { end } else { i };
            if found {
                let mut block: Vec<Vec<char>> = Vec::new();
                let mut k: usize = i;
                while k <= end_idx
                    invariant
                        i <= k <= end_idx + 1,
                        end_idx < ls.len(),
                        l == views(ls@),
                        views(block@) == l.subrange(i as int, k as int),
                    decreases end_idx + 1 - k,
                {
                    let c = ls[k].clone();
                    assert(c@ =~= l[k as int]);
                    let ghost ob = block@;
                    block.push(c);
                    assert(views(block@) =~= views(ob).push(c@));
                    assert(views(block@) =~= l.subrange(i as int, k + 1));
                    k = k + 1;
                }
                proof {
                    lemma_total_subrange_le(l, i as int, end_idx + 1);
                }
                match try_patch_block(block.as_slice(), propc.as_slice(), valc.as_slice()) {
                    None => {
                        return None;
                    },
                    Some(pb) => {
                        let ghost gpb = views(pb@);
                        proof {
                            match rules_go(l, end_idx + 1, g_pat, prop@, g_val) {
                                Some(rp) => {
                                    assert(old_out + (gpb + rp.0) =~= (old_out + gpb) + rp.0);
                                },
                                None => {},
                            }
                        }
                        let mut m: usize = 0;
                        while m < pb.len()
                            invariant
                                m <= pb.len(),
                                gpb == views(pb@),
                                views(out@) == old_out + gpb.take(m as int),
                            decreases pb.len() - m,
                        {
                            let c = pb[m].clone();
                            assert(c@ =~= gpb[m as int]);
                            let ghost oo = out@;
                            out.push(c);
                            assert(views(out@) =~= views(oo).push(c@));
                            assert(views(out@) =~= old_out + gpb.take(m + 1));
                            m = m + 1;
                        }
                        assert(gpb.take(pb.len() as int) =~= gpb);
                        patched = true;
                        i = end_idx + 1;
                    },
                }
            } else {
                proof {
                    match rules_go(l, i + 1, g_pat, prop@, g_val) {
                        Some(rp) => {
                            assert(old_out + (seq![l[i as int]] + rp.0) =~= old_out.push(l[i as int]) + rp.0);
                        },
                        None => {},
                    }
                }
                out.push(ls[i].clone());
                assert(views(out@) =~= old_out.push(l[i as int]));
                i = i + 1;
            }
        } else {
            proof {
                match rules_go(l, i + 1, g_pat, prop@, g_val) {
                    Some(rp) => {
                        assert(old_out + (seq![l[i as int]] + rp.0) =~= old_out.push(l[i as int]) + rp.0);
                    },
                    None => {},
                }
            }
            out.push(ls[i].clone());
            assert(views(out@) =~= old_out.push(l[i as int]));
            i = i + 1;
        }
    }
    assert(views(out@) + Seq::<Seq<char>>::empty() =~= views(out@));
    if !patched {
        let mut msg = chars_of("No layer-rule found for namespace '");
        append_chars(&mut msg, nsc.as_slice());
        let q = chars_of("'");
        append_chars(&mut msg, q.as_slice());
        return Some(Err(string_of(msg.as_slice())));
    }
    let nl = chars_of("\n");
    let mut joined = join_chars(&out, nl.as_slice());
    if ends_with_chars(cs.as_slice(), nl.as_slice()) {
        append_chars(&mut joined, nl.as_slice());
    } else {
        assert(joined@ + Seq::<char>::empty() =~= joined@);
    }
    Some(Ok(string_of(joined.as_slice())))
}

/// Resets every module's layer rule; `None` where an indentation cannot be taken.
fn try_reset_rules(content: &str) -> (r: Option<String>)
    ensures
        match r {
            Some(t) => spec_reset_rules(content@) == Some(t@),
            None => spec_reset_rules(content@) is None,
        },
{
    let ghost nss = layer_namespaces();
    let mut cur: String = string_of(chars_of(content).as_slice());
    let mut i: usize = 0;
    assert(nss.skip(0) =~= nss);
    while i < 5
        invariant
            i <= 5,
            nss == layer_namespaces(),
            nss.len() == 5,
            spec_reset_rules(content@) == reset_go(Some(cur@), nss.skip(i as int)),
        decreases 5 - i,
    {
        let ns = namespace_at(i);
        assert(nss.skip(i as int)[0] == nss[i as int]);
        assert(nss.skip(i as int).drop_first() =~= nss.skip(i + 1));
        let after_blur: String = match try_patch_rules(cur.as_str(), ns, "blur", true) {
            None => {
                proof {
                    lemma_reset_none(nss.skip(i + 1));
                }
                return None;
            },
            Some(Ok(t)) => t,
            Some(Err(_)) => cur,
        };
        let after_xray: String = match try_patch_rules(after_blur.as_str(), ns, "xray", false) {
            None => {
                proof {
                    lemma_reset_none(nss.skip(i + 1));
                }
                return None;
            },
            Some(Ok(t)) => t,
            Some(Err(_)) => after_blur,
        };
        cur = after_xray;
        i = i + 1;
    }
    assert(nss.skip(5) =~= Seq::<Seq<char>>::empty());
    Some(cur)
}

// ---------------------------------------------------------------------------
// The service
// ---------------------------------------------------------------------------

/// Niri's layer rules for the shell's surfaces.
/// What switching blur or x-ray for a module comes to.
#[derive(Debug)]
pub enum EffectOutcome {
    /// The module has no layer rule: the settings are left as they were.
    UnknownModule,
    /// The settings were changed, but `rules.kdl` could not be read or
    /// patched (the error): nothing is written and Niri is not reloaded.
    Failed(String),
    /// The settings were changed: the new text of `rules.kdl` is to be
    /// written and Niri reloaded.
    Patched(String),
}

/// The property a switch sets in the layer rule.
pub open spec fn effect_property(xray: bool) -> Seq<char> {
    if xray { "xray"@ } else { "blur"@ }
}

/// The settings after switching blur (or x-ray) of a module.
pub open spec fn settings_after_switch(s: SettingsView, m: Seq<char>, xray: bool, v: bool) -> SettingsView {
    if xray {
        with_blur_result(s, spec_with_xray(s.blur, m, v))
    } else {
        with_blur_result(s, spec_with_blur(s.blur, m, v))
    }
}

/// The text of `rules.kdl` (or the error reading it) lets the switch be
/// patched without the byte slicing that splits a character.
pub open spec fn switch_patchable(m: Seq<char>, xray: bool, v: bool, rules: Result<Seq<char>, Seq<char>>) -> bool {
    match (spec_namespace(m), rules) {
        (Some(ns), Ok(c)) => spec_patch_rules(c, ns, effect_property(xray), v) is Some,
        _ => true,
    }
}

/// The views of a read result.
pub open spec fn read_view(r: Result<String, String>) -> Result<Seq<char>, Seq<char>> {
    match r {
        Ok(c) => Ok(c@),
        Err(e) => Err(e@),
    }
}

/// The outcome of a switch, over views.
pub open spec fn outcome_matches(r: EffectOutcome, m: Seq<char>, xray: bool, v: bool, rules: Result<Seq<char>, Seq<char>>) -> bool {
    match spec_namespace(m) {
        None => r is UnknownModule,
        Some(ns) => match rules {
            Err(e) => r matches EffectOutcome::Failed(t) && t@ == e,
            Ok(c) => match spec_patch_rules(c, ns, effect_property(xray), v) {
                Some(Ok(t)) => r matches EffectOutcome::Patched(n) && n@ == t,
                Some(Err(e)) => r matches EffectOutcome::Failed(t) && t@ == e,
                None => false,
            },
        },
    }
}

pub struct NiriConfigService;

impl NiriConfigService {
    /// `~/.config/niri/rules.kdl`, the file patched.
    pub fn rules_path(home: &Option<String>) -> (r: String)
        ensures
            r@ == crate::settings::join_path(
                match opt_view(*home) {
                    Some(h) => h,
                    None => Seq::<char>::empty(),
                },
                ".config/niri/rules.kdl"@,
            ),
    {
        match home {
            Some(h) => {
                let r = crate::settings::join_path_str(h.as_str(), ".config/niri/rules.kdl");
                assert(opt_view(*home) == Some(h@));
                r
            },
            None => {
                let e = String::new();
                crate::settings::join_path_str(e.as_str(), ".config/niri/rules.kdl")
            },
        }
    }

    /// The copy of the rules kept in the shell's repository, updated too
    /// when it exists: `~/COS_Niri/.config/niri/rules.kdl`; none without a
    /// home directory.
    pub fn repo_rules_path(home: &Option<String>) -> (r: Option<String>)
        ensures
            match *home {
                Some(h) => r matches Some(p) && p@ == crate::settings::join_path(h@, "COS_Niri/.config/niri/rules.kdl"@),
                None => r is None,
            },
    {
        match home {
            Some(h) => Some(crate::settings::join_path_str(h.as_str(), "COS_Niri/.config/niri/rules.kdl")),
            None => None,
        }
    }

    /// The arguments of the `niri msg` call that reloads the configuration.
    pub fn reload_args() -> (r: Vec<String>)
        ensures
            string_views(r@) == seq!["msg"@, "action"@, "load-config-file"@],
    {
        let mut r: Vec<String> = Vec::new();
        r.push(string_of(chars_of("msg").as_slice()));
        r.push(string_of(chars_of("action").as_slice()));
        r.push(string_of(chars_of("load-config-file").as_slice()));
        assert(string_views(r@) =~= seq!["msg"@, "action"@, "load-config-file"@]);
        r
    }

    /// The layer namespace of a module, if it is one of the shell's.
    pub fn namespace_for_module(module: &str) -> (r: Option<String>)
        ensures
            opt_view(r) == spec_namespace(module@),
    {
        let m = chars_of(module);
        let ns = if eq_chars(m.as_slice(), chars_of("bar").as_slice()) {
            "cos-bar"
        } else if eq_chars(m.as_slice(), chars_of("quick_settings").as_slice()) {
            "cos-quick-settings"
        } else if eq_chars(m.as_slice(), chars_of("calendar").as_slice()) {
            "cos-calendar"
        } else if eq_chars(m.as_slice(), chars_of("launcher").as_slice()) {
            "cos-launcher"
        } else if eq_chars(m.as_slice(), chars_of("tray").as_slice()) {
            "cos-tray-menu"
        } else {
            return None;
        };
        Some(string_of(chars_of(ns).as_slice()))
    }

    /// Whether `patch_background_effect` can patch the block: every
    /// indentation it takes ends on a character boundary.
    pub fn can_patch_background_effect(block: &[String], property: &str, value: &str) -> (r: bool)
        requires
            total_len(string_views(block@)) <= usize::MAX,
        ensures
            r == spec_patch_block(string_views(block@), property@, value@) is Some,
    {
        let b = block_chars(block);
        try_patch_block(b.as_slice(), chars_of(property).as_slice(), chars_of(value).as_slice()).is_some()
    }

    /// Sets `property value` inside the `background-effect` sub-block of a
    /// layer rule's lines, or inserts it before the sub-block closes.
    pub fn patch_background_effect(block: &[String], property: &str, value: &str) -> (r: Vec<String>)
        requires
            total_len(string_views(block@)) <= usize::MAX,
            spec_patch_block(string_views(block@), property@, value@) is Some,
        ensures
            spec_patch_block(string_views(block@), property@, value@) == Some(string_views(r@)),
    {
        let b = block_chars(block);
        match try_patch_block(b.as_slice(), chars_of(property).as_slice(), chars_of(value).as_slice()) {
            Some(v) => crate::text::strings_of(&v),
            None => Vec::new(),
        }
    }

    /// Whether `patch_layer_rule` can patch the text (see `can_patch_background_effect`).
    pub fn can_patch_layer_rule(content: &str, namespace: &str, property: &str, value: bool) -> (r: bool)
        ensures
            r == spec_patch_rules(content@, namespace@, property@, value) is Some,
    {
        try_patch_rules(content, namespace, property, value).is_some()
    }

    /// The text of `rules.kdl` with `property` set to `value` in the layer
    /// rules of `namespace`, or the error when it has no such rule.
    pub fn patch_layer_rule(content: &str, namespace: &str, property: &str, value: bool) -> (r: Result<String, String>)
        requires
            spec_patch_rules(content@, namespace@, property@, value) is Some,
        ensures
            match r {
                Ok(t) => spec_patch_rules(content@, namespace@, property@, value) == Some(Ok::<Seq<char>, Seq<char>>(t@)),
                Err(e) => spec_patch_rules(content@, namespace@, property@, value) == Some(Err::<Seq<char>, Seq<char>>(e@)),
            },
    {
        match try_patch_rules(content, namespace, property, value) {
            Some(r) => r,
            None => Err(String::new()),
        }
    }

    /// Whether `reset_rules` can reset the text (see `can_patch_background_effect`).
    pub fn can_reset_rules(content: &str) -> (r: bool)
        ensures
            r == spec_reset_rules(content@) is Some,
    {
        try_reset_rules(content).is_some()
    }

    /// The text of `rules.kdl` after every module's layer rule is set back to
    /// blur on and x-ray off, one patch after the other; a patch that finds
    /// no rule leaves the text as it was.
    pub fn reset_rules(content: &str) -> (r: String)
        requires
            spec_reset_rules(content@) is Some,
        ensures
            spec_reset_rules(content@) == Some(r@),
    {
        match try_reset_rules(content) {
            Some(t) => t,
            None => String::new(),
        }
    }
}

fn block_chars(block: &[String]) -> (r: Vec<Vec<char>>)
    ensures
        views(r@) == string_views(block@),
{
    let mut r: Vec<Vec<char>> = Vec::new();
    let mut i: usize = 0;
    while i < block.len()
        invariant
            i <= block.len(),
            views(r@) == string_views(block@).take(i as int),
        decreases block.len() - i,
    {
        let c = chars_of(block[i].as_str());
        assert(c@ == string_views(block@)[i as int]);
        let ghost orr = r@;
        r.push(c);
        assert(views(r@) =~= views(orr).push(c@));
        assert(views(r@) =~= string_views(block@).take(i + 1));
        i = i + 1;
    }
    assert(string_views(block@).take(block.len() as int) =~= string_views(block@));
    r
}

impl NiriConfigService {
    fn switch_effect(svc: &mut SettingsService, module: &str, xray: bool, enabled: bool, rules: Result<String, String>) -> (r: EffectOutcome)
        requires
            switch_patchable(module@, xray, enabled, read_view(rules)),
        ensures
            outcome_matches(r, module@, xray, enabled, read_view(rules)),
            final(svc)@ == match spec_namespace(module@) {
                Some(_) => settings_after_switch(old(svc)@, module@, xray, enabled),
                None => old(svc)@,
            },
    {
        let namespace = match Self::namespace_for_module(module) {
            Some(ns) => ns,
            None => return EffectOutcome::UnknownModule,
        };
        if xray {
            svc.set_xray(module, enabled);
        } else {
            svc.set_blur(module, enabled);
        }
        let property = if xray { "xray" } else { "blur" };
        match rules {
            Err(e) => EffectOutcome::Failed(e),
            Ok(content) => {
                match Self::patch_layer_rule(content.as_str(), namespace.as_str(), property, enabled) {
                    Ok(t) => EffectOutcome::Patched(t),
                    Err(e) => EffectOutcome::Failed(e),
                }
            },
        }
    }

    /// Switches blur for a module: the settings change, and `rules` (the
    /// text of `rules.kdl`, or the error reading it) is patched; a module
    /// without a layer rule changes nothing.
    pub fn set_blur(svc: &mut SettingsService, module: &str, enabled: bool, rules: Result<String, String>) -> (r: EffectOutcome)
        requires
            switch_patchable(module@, false, enabled, read_view(rules)),
        ensures
            outcome_matches(r, module@, false, enabled, read_view(rules)),
            final(svc)@ == match spec_namespace(module@) {
                Some(_) => settings_after_switch(old(svc)@, module@, false, enabled),
                None => old(svc)@,
            },
    {
        Self::switch_effect(svc, module, false, enabled, rules)
    }

    /// Switches x-ray for a module, as `set_blur` does for blur.
    pub fn set_xray(svc: &mut SettingsService, module: &str, enabled: bool, rules: Result<String, String>) -> (r: EffectOutcome)
        requires
            switch_patchable(module@, true, enabled, read_view(rules)),
        ensures
            outcome_matches(r, module@, true, enabled, read_view(rules)),
            final(svc)@ == match spec_namespace(module@) {
                Some(_) => settings_after_switch(old(svc)@, module@, true, enabled),
                None => old(svc)@,
            },
    {
        Self::switch_effect(svc, module, true, enabled, rules)
    }

    /// Whether a switch can be patched into the given `rules.kdl` text (or
    /// read error) without splitting a character.
    pub fn can_switch(module: &str, xray: bool, enabled: bool, rules: &Result<String, String>) -> (r: bool)
        ensures
            r == switch_patchable(module@, xray, enabled, read_view(*rules)),
    {
        match Self::namespace_for_module(module) {
            None => true,
            Some(ns) => match rules {
                Err(_) => true,
                Ok(c) => Self::can_patch_layer_rule(c.as_str(), ns.as_str(), if xray { "xray" } else { "blur" }, enabled),
            },
        }
    }
}

} // verus!
