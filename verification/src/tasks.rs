//! What the workspace's developer tasks decide: the terminal snapshot, the
//! static file server's paths and content types, screenshot expectations,
//! key names for browser automation, and the text patterns of renderers
//! that must no longer appear.
use vstd::prelude::*;
use crate::backends::TerminalScreenCapture;
use crate::dd::{RenderCommand, SmokeOutput};
use crate::literal::u64_text;
use crate::examples::{lits, required_example_names, required_examples};
use crate::playground::texts;
use crate::json::{
    compact_json_text, get, get_array, get_str, get_u64, json_array, json_compact, json_document, json_get,
    json_str, json_str_keys, json_u64, parse_json_document, str_items, string_items, string_keys,
};
use crate::text::{chars_eq, chars_of, decimal, push_char, push_str, range_eq_str, string_eq_str, string_eq_string};
use crate::toplevel::{find_char_pub, find_from};
use crate::strmap::{lookup, StrMap};

verus! {

/// `n` copies of a character.
pub open spec fn chars_n(c: char, n: nat) -> Seq<char> {
    Seq::new(n, |i: int| c)
}

/// Appends `n` copies of a character.
pub fn push_n(s: &mut String, c: char, n: usize)
    ensures
        final(s)@ == old(s)@ + chars_n(c, n as nat),
{
    let ghost start = s@;
    let mut i: usize = 0;
    while i < n
        invariant
            i <= n,
            s@ == start + chars_n(c, i as nat),
        decreases n - i,
    {
        push_char(s, c);
        i = i + 1;
        assert(start + chars_n(c, i as nat) =~= (start + chars_n(c, (i - 1) as nat)).push(c));
    }
}

/// A text padded with spaces on the right to `w` characters.
pub open spec fn pad_right(t: Seq<char>, w: nat) -> Seq<char> {
    if t.len() >= w {
        t
    } else {
        t + chars_n(' ', (w - t.len()) as nat)
    }
}

/// The text of the first output's first render command, or nothing.
pub open spec fn first_render_text(outputs: Seq<SmokeOutput>) -> Seq<char> {
    if outputs.len() > 0 && outputs[0].render@.len() > 0 {
        match outputs[0].render@[0] {
            RenderCommand::PatchText { text, .. } => text@,
        }
    } else {
        Seq::empty()
    }
}

/// The top and bottom edge of the snapshot frame.
pub open spec fn frame_edge() -> Seq<char> {
    "+"@ + chars_n('-', 120) + "+\n"@
}

/// `n` empty rows of the snapshot frame.
pub open spec fn blank_rows(n: nat) -> Seq<char>
    decreases n,
{
    if n == 0 {
        Seq::empty()
    } else {
        blank_rows((n - 1) as nat) + "|"@ + chars_n(' ', 120) + "|\n"@
    }
}

/// A 120 by 40 frame with the rendered text in its first row.
pub open spec fn snapshot_text(outputs: Seq<SmokeOutput>) -> Seq<char> {
    frame_edge() + "|"@ + pad_right(first_render_text(outputs), 120) + "|\n"@ + blank_rows(39)
        + frame_edge()
}

fn push_edge(s: &mut String)
    ensures
        final(s)@ == old(s)@ + frame_edge(),
{
    let ghost start = s@;
    push_str(s, "+");
    push_n(s, '-', 120);
    push_str(s, "+\n");
    assert(s@ =~= start + frame_edge());
}

/// The terminal snapshot of a run: the first rendered text in a frame.
pub fn terminal_snapshot(outputs: &[SmokeOutput]) -> (r: String)
    ensures
        r@ == snapshot_text(outputs@),
{
    let text: String = if outputs.len() > 0 && outputs[0].render.len() > 0 {
        match &outputs[0].render[0] {
            RenderCommand::PatchText { text, .. } => text.clone(),
        }
    } else {
        String::new()
    };
    let tv = chars_of(text.as_str());
    let mut s = String::new();
    push_edge(&mut s);
    push_str(&mut s, "|");
    let ghost before = s@;
    push_str(&mut s, text.as_str());
    if tv.len() < 120 {
        push_n(&mut s, ' ', 120 - tv.len());
    }
    assert(s@ =~= before + pad_right(first_render_text(outputs@), 120));
    push_str(&mut s, "|\n");
    let mut row: usize = 1;
    let ghost head = s@;
    assert(blank_rows(0) =~= Seq::<char>::empty());
    assert(head + blank_rows(0) =~= head);
    while row < 40
        invariant
            1 <= row <= 40,
            s@ == head + blank_rows((row - 1) as nat),
        decreases 40 - row,
    {
        let ghost b = s@;
        push_str(&mut s, "|");
        push_n(&mut s, ' ', 120);
        push_str(&mut s, "|\n");
        assert(s@ =~= head + blank_rows(row as nat));
        row = row + 1;
    }
    push_edge(&mut s);
    assert(s@ =~= snapshot_text(outputs@));
    s
}

/// Where the first blank line ending an HTTP header starts, from `i` on.
pub open spec fn header_end_from(b: Seq<u8>, i: int) -> Option<int>
    decreases b.len() - i,
{
    if 0 <= i && i + 4 <= b.len() {
        if b[i] == 13 && b[i + 1] == 10 && b[i + 2] == 13 && b[i + 3] == 10 {
            Some(i)
        } else {
            header_end_from(b, i + 1)
        }
    } else {
        None
    }
}

/// The position of the first `\r\n\r\n` in a buffer.
pub fn find_header_end(buffer: &[u8]) -> (r: Option<usize>)
    ensures
        match r {
            Some(k) => header_end_from(buffer@, 0) == Some(k as int),
            None => header_end_from(buffer@, 0) is None,
        },
{
    let mut i: usize = 0;
    while i < buffer.len() && buffer.len() - i >= 4
        invariant
            i <= buffer@.len(),
            header_end_from(buffer@, i as int) == header_end_from(buffer@, 0),
        decreases buffer.len() - i,
    {
        if buffer[i] == 13 && buffer[i + 1] == 10 && buffer[i + 2] == 13 && buffer[i + 3] == 10 {
            return Some(i);
        }
        i = i + 1;
    }
    None
}

/// The number of `/` a text starts with, from `i` on.
pub open spec fn leading_slashes(p: Seq<char>, i: int) -> int
    decreases p.len() - i,
{
    if 0 <= i < p.len() && p[i] == '/' {
        leading_slashes(p, i + 1)
    } else {
        i
    }
}

/// Whether two dots stand at position `k`.
pub open spec fn dots_at(s: Seq<char>, k: int) -> bool {
    0 <= k && k + 1 < s.len() && s[k] == '.' && s[k + 1] == '.'
}

/// Whether a text holds `..`.
pub open spec fn has_dot_dot(s: Seq<char>) -> bool {
    exists|k: int| #[trigger] dots_at(s, k)
}

/// The file a request path asks for, relative to the served directory:
/// `/` is the index page; a path that is empty once its leading slashes are
/// gone, or climbs with `..`, is refused.
pub open spec fn static_path(p: Seq<char>) -> Result<Seq<char>, Seq<char>> {
    if p == "/"@ || p == "/index.html"@ {
        Ok("index.html"@)
    } else {
        let s = p.skip(leading_slashes(p, 0));
        if s.len() == 0 || has_dot_dot(s) || s[0] == '/' {
            Err("refusing unsafe static path: "@ + p)
        } else {
            Ok(s)
        }
    }
}

/// A path the static server accepts stays inside the served directory: it is
/// not empty, does not start with `/` and holds no `..`.
pub proof fn lemma_static_path_confined(p: Seq<char>)
    ensures
        static_path(p) matches Ok(s) ==> s.len() > 0 && s[0] != '/' && !has_dot_dot(s),
{
    if p == "/"@ || p == "/index.html"@ {
        reveal_strlit("index.html");
        let s = "index.html"@;
        assert forall|k: int| !#[trigger] dots_at(s, k) by {
            if 0 <= k && k + 1 < s.len() && s[k] == '.' {
                assert(k == 5);
            }
        }
    }
}

proof fn lemma_leading_slashes(p: Seq<char>, i: int)
    requires
        0 <= i <= p.len(),
    ensures
        i <= leading_slashes(p, i) <= p.len(),
        leading_slashes(p, i) < p.len() ==> p[leading_slashes(p, i)] != '/',
    decreases p.len() - i,
{
    if i < p.len() && p[i] == '/' {
        lemma_leading_slashes(p, i + 1);
    }
}

/// The served file a request path asks for.
pub fn static_request_path(path: &str) -> (r: Result<String, String>)
    ensures
        match static_path(path@) {
            Ok(s) => r matches Ok(x) && x@ == s,
            Err(e) => r matches Err(x) && x@ == e,
        },
{
    let p = chars_of(path);
    assert(p@.subrange(0, p@.len() as int) =~= p@);
    if range_eq_str(p.as_slice(), 0, p.len(), "/") || range_eq_str(
        p.as_slice(),
        0,
        p.len(),
        "/index.html",
    ) {
        return Ok("index.html".to_owned());
    }
    let mut k: usize = 0;
    while k < p.len() && p[k] == '/'
        invariant
            k <= p@.len(),
            leading_slashes(p@, k as int) == leading_slashes(p@, 0),
        decreases p.len() - k,
    {
        k = k + 1;
    }
    proof {
        lemma_leading_slashes(p@, 0);
        assert(p@.skip(k as int) =~= p@.subrange(k as int, p@.len() as int));
    }
    let mut dots = false;
    let mut j: usize = k;
    while j < p.len() && j + 1 < p.len()
        invariant
            k <= j <= p@.len(),
            dots == exists|m: int| k <= m < j && #[trigger] dots_at(p@, m),
        decreases p.len() - j,
    {
        if p[j] == '.' && p[j + 1] == '.' {
            dots = true;
            assert(dots_at(p@, j as int));
        }
        j = j + 1;
    }
    let ghost s = p@.skip(k as int);
    proof {
        if dots {
            let m = choose|m: int| k <= m < j && #[trigger] dots_at(p@, m);
            assert(dots_at(s, m - k));
        }
        if has_dot_dot(s) {
            let m = choose|m: int| #[trigger] dots_at(s, m);
            assert(dots_at(p@, m + k));
            assert(k <= m + k < j);
        }
    }
    if k == p.len() || dots || p[k] == '/' {
        let mut e = "refusing unsafe static path: ".to_owned();
        push_str(&mut e, path);
        Err(e)
    } else {
        Ok(crate::text::string_of_range(p.as_slice(), k, p.len()))
    }
}

/// The extension of the file a path names, as `Path::extension` finds it.
pub uninterp spec fn file_extension(path: Seq<char>) -> Option<Seq<char>>;

/// `Path::extension`, read as UTF-8: the part of the file name after its
/// last dot, if the name has one that does not start it. Only that the
/// result is a function of the path is claimed.
#[verifier::external_body]
fn path_extension(path: &str) -> (r: Option<String>)
    ensures
        match file_extension(path@) {
            Some(e) => r matches Some(x) && x@ == e,
            None => r is None,
        },
{
    std::path::Path::new(path).extension().and_then(|e| e.to_str()).map(|e| e.to_owned())
}

/// The extension of a path, or nothing.
pub open spec fn extension_or_empty(path: Seq<char>) -> Seq<char> {
    match file_extension(path) {
        Some(e) => e,
        None => Seq::empty(),
    }
}

fn extension_text(path: &str) -> (r: Vec<char>)
    ensures
        r@ == extension_or_empty(path@),
{
    match path_extension(path) {
        Some(e) => chars_of(e.as_str()),
        None => Vec::new(),
    }
}

/// Whether the characters spell `lit`.
fn spells(v: &Vec<char>, lit: &str) -> (r: bool)
    ensures
        r == (v@ == lit@),
{
    assert(v@.subrange(0, v@.len() as int) =~= v@);
    range_eq_str(v.as_slice(), 0, v.len(), lit)
}

/// The content type the static server sends for a file extension.
pub open spec fn served_content_type(ext: Seq<char>) -> Seq<char> {
    if ext == "html"@ {
        "text/html"@
    } else if ext == "js"@ {
        "text/javascript"@
    } else if ext == "wasm"@ {
        "application/wasm"@
    } else if ext == "css"@ {
        "text/css"@
    } else if ext == "json"@ {
        "application/json"@
    } else if ext == "png"@ {
        "image/png"@
    } else if ext == "jpg"@ || ext == "jpeg"@ {
        "image/jpeg"@
    } else if ext == "svg"@ {
        "image/svg+xml"@
    } else {
        "application/octet-stream"@
    }
}

/// The content type the static server sends for a file.
pub fn content_type_for_path(path: &str) -> (r: &'static str)
    ensures
        r@ == served_content_type(extension_or_empty(path@)),
{
    let e = extension_text(path);
    if spells(&e, "html") {
        "text/html"
    } else if spells(&e, "js") {
        "text/javascript"
    } else if spells(&e, "wasm") {
        "application/wasm"
    } else if spells(&e, "css") {
        "text/css"
    } else if spells(&e, "json") {
        "application/json"
    } else if spells(&e, "png") {
        "image/png"
    } else if spells(&e, "jpg") || spells(&e, "jpeg") {
        "image/jpeg"
    } else if spells(&e, "svg") {
        "image/svg+xml"
    } else {
        "application/octet-stream"
    }
}

/// The content type the surface server sends for a file extension.
pub open spec fn surface_content_type(ext: Seq<char>) -> Seq<char> {
    if ext == "html"@ {
        "text/html"@
    } else if ext == "js"@ {
        "application/javascript"@
    } else if ext == "wasm"@ {
        "application/wasm"@
    } else if ext == "png"@ {
        "image/png"@
    } else {
        "application/octet-stream"@
    }
}

/// The content type the surface server sends for a file.
pub fn content_type(path: &str) -> (r: &'static str)
    ensures
        r@ == surface_content_type(extension_or_empty(path@)),
{
    let e = extension_text(path);
    if spells(&e, "html") {
        "text/html"
    } else if spells(&e, "js") {
        "application/javascript"
    } else if spells(&e, "wasm") {
        "application/wasm"
    } else if spells(&e, "png") {
        "image/png"
    } else {
        "application/octet-stream"
    }
}

/// The WebDriver key code a key name stands for; other keys are sent as
/// they are.
pub open spec fn webdriver_key(key: Seq<char>) -> Seq<char> {
    if key == "Enter"@ {
        "\u{E006}"@
    } else if key == "Backspace"@ {
        "\u{E003}"@
    } else if key == "Tab"@ {
        "\u{E004}"@
    } else if key == "Escape"@ || key == "Esc"@ {
        "\u{E00C}"@
    } else if key == "Space"@ || key == " "@ {
        " "@
    } else if key == "Home"@ {
        "\u{E011}"@
    } else if key == "ArrowLeft"@ || key == "Left"@ {
        "\u{E012}"@
    } else if key == "ArrowUp"@ || key == "Up"@ {
        "\u{E013}"@
    } else if key == "ArrowRight"@ || key == "Right"@ {
        "\u{E014}"@
    } else if key == "ArrowDown"@ || key == "Down"@ {
        "\u{E015}"@
    } else if key == "End"@ {
        "\u{E010}"@
    } else if key == "PageUp"@ {
        "\u{E00E}"@
    } else if key == "PageDown"@ {
        "\u{E00F}"@
    } else if key == "Minus"@ || key == "-"@ {
        "-"@
    } else {
        key
    }
}

/// The WebDriver key code for a key name.
pub fn webdriver_key_value(key: &str) -> (r: String)
    ensures
        r@ == webdriver_key(key@),
{
    let v = chars_of(key);
    if spells(&v, "Enter") {
        return "\u{E006}".to_owned();
    }
    if spells(&v, "Backspace") {
        return "\u{E003}".to_owned();
    }
    if spells(&v, "Tab") {
        return "\u{E004}".to_owned();
    }
    if spells(&v, "Escape") || spells(&v, "Esc") {
        return "\u{E00C}".to_owned();
    }
    if spells(&v, "Space") || spells(&v, " ") {
        return " ".to_owned();
    }
    if spells(&v, "Home") {
        return "\u{E011}".to_owned();
    }
    if spells(&v, "ArrowLeft") || spells(&v, "Left") {
        return "\u{E012}".to_owned();
    }
    if spells(&v, "ArrowUp") || spells(&v, "Up") {
        return "\u{E013}".to_owned();
    }
    if spells(&v, "ArrowRight") || spells(&v, "Right") {
        return "\u{E014}".to_owned();
    }
    if spells(&v, "ArrowDown") || spells(&v, "Down") {
        return "\u{E015}".to_owned();
    }
    if spells(&v, "End") {
        return "\u{E010}".to_owned();
    }
    if spells(&v, "PageUp") {
        return "\u{E00E}".to_owned();
    }
    if spells(&v, "PageDown") {
        return "\u{E00F}".to_owned();
    }
    if spells(&v, "Minus") || spells(&v, "-") {
        return "-".to_owned();
    }
    key.to_owned()
}

/// The smallest screenshot file accepted for a target, in bytes.
pub open spec fn min_screenshot_bytes(target: Seq<char>) -> u64 {
    if target == "terminal"@ {
        1000
    } else if target == "native"@ || target == "browser"@ {
        5000
    } else {
        1000
    }
}

/// The smallest screenshot file accepted for a target.
pub fn minimum_screenshot_bytes(target: &str) -> (r: u64)
    ensures
        r == min_screenshot_bytes(target@),
{
    let v = chars_of(target);
    if spells(&v, "terminal") {
        1000
    } else if spells(&v, "native") || spells(&v, "browser") {
        5000
    } else {
        1000
    }
}

/// The window size native and browser surfaces are expected to have.
pub open spec fn native_size() -> (u32, u32) {
    (1200, 800)
}

/// The screenshot sizes accepted for a target.
pub open spec fn screenshot_sizes(target: Seq<char>) -> Seq<(u32, u32)> {
    if target == "terminal"@ {
        seq![(960u32, 560u32)]
    } else if target == "native"@ {
        seq![native_size(), (1912u32, 1948u32), (3828u32, 1948u32)]
    } else if target == "browser"@ {
        seq![native_size(), (1200u32, 714u32), (1200u32, 634u32)]
    } else {
        seq![native_size()]
    }
}

/// The screenshot sizes accepted for a target.
pub fn expected_dimensions_for_target(target: &str) -> (r: Vec<(u32, u32)>)
    ensures
        r@ == screenshot_sizes(target@),
{
    let v = chars_of(target);
    let r = if spells(&v, "terminal") {
        vec![(960u32, 560u32)]
    } else if spells(&v, "native") {
        vec![(1200u32, 800u32), (1912u32, 1948u32), (3828u32, 1948u32)]
    } else if spells(&v, "browser") {
        vec![(1200u32, 800u32), (1200u32, 714u32), (1200u32, 634u32)]
    } else {
        vec![(1200u32, 800u32)]
    };
    assert(r@ =~= screenshot_sizes(target@));
    r
}

/// Whether an action changed what the terminal shows: its output, its
/// counts, its input or its log.
pub open spec fn terminal_changed(a: TerminalScreenCapture, b: TerminalScreenCapture) -> bool {
    a.render_output_text@ != b.render_output_text@ || a.selected_action_count
        != b.selected_action_count || a.selected_monitor_count != b.selected_monitor_count
        || a.input_buffer@ != b.input_buffer@ || a.last_submitted_text@ != b.last_submitted_text@
        || a.interaction_log@.len() != b.interaction_log@.len()
}

/// Whether an action changed what the terminal shows.
pub fn state_changed_terminal(
    selected: &TerminalScreenCapture,
    after_action: &TerminalScreenCapture,
) -> (r: bool)
    ensures
        r == terminal_changed(*selected, *after_action),
{
    !string_eq_string(&selected.render_output_text, &after_action.render_output_text)
        || selected.selected_action_count != after_action.selected_action_count
        || selected.selected_monitor_count != after_action.selected_monitor_count
        || !string_eq_string(&selected.input_buffer, &after_action.input_buffer)
        || !string_eq_string(&selected.last_submitted_text, &after_action.last_submitted_text)
        || selected.interaction_log.len() != after_action.interaction_log.len()
}

/// Whether `needle` occurs in `hay` at position `k`.
pub open spec fn occurs_at(hay: Seq<char>, needle: Seq<char>, k: int) -> bool {
    0 <= k && k + needle.len() <= hay.len() && hay.subrange(k, k + needle.len()) == needle
}

/// Whether `needle` occurs in `hay`.
pub open spec fn contains_text(hay: Seq<char>, needle: Seq<char>) -> bool {
    exists|k: int| #[trigger] occurs_at(hay, needle, k)
}

/// Whether `needle` occurs in `hay`.
pub fn text_contains(hay: &str, needle: &str) -> (r: bool)
    ensures
        r == contains_text(hay@, needle@),
{
    let h = chars_of(hay);
    let n = chars_of(needle);
    if n.len() > h.len() {
        assert forall|k: int| !#[trigger] occurs_at(hay@, needle@, k) by {}
        return false;
    }
    let mut k: usize = 0;
    while k <= h.len() - n.len()
        invariant
            h@ == hay@,
            n@ == needle@,
            n@.len() <= h@.len(),
            k <= h@.len() - n@.len() + 1,
            forall|m: int| 0 <= m < k ==> !#[trigger] occurs_at(hay@, needle@, m),
        decreases h.len() - n.len() + 1 - k,
    {
        let mut j: usize = 0;
        let mut same = true;
        while j < n.len()
            invariant
                h@ == hay@,
                n@ == needle@,
                k + n@.len() <= h@.len(),
                h@.len() <= usize::MAX,
                j <= n@.len(),
                same == (forall|t: int| 0 <= t < j ==> h@[k + t] == n@[t]),
            decreases n.len() - j,
        {
            if h[k + j] != n[j] {
                same = false;
            }
            j = j + 1;
        }
        if same {
            assert(hay@.subrange(k as int, k + needle@.len()) =~= needle@);
            assert(occurs_at(hay@, needle@, k as int));
            return true;
        }
        assert(!occurs_at(hay@, needle@, k as int)) by {
            let t = choose|t: int| 0 <= t < n@.len() && h@[k + t] != n@[t];
            if hay@.subrange(k as int, k + needle@.len()) == needle@ {
                assert(hay@.subrange(k as int, k + needle@.len())[t] == h@[k + t]);
            }
        }
        k = k + 1;
    }
    assert forall|m: int| !#[trigger] occurs_at(hay@, needle@, m) by {
        if 0 <= m < k {
        }
    }
    false
}

/// Whether some line holds the text.
pub open spec fn some_line_contains(lines: Seq<String>, needle: Seq<char>) -> bool {
    exists|i: int| 0 <= i < lines.len() && #[trigger] contains_text(lines[i]@, needle)
}

fn any_line_contains(lines: &Vec<String>, needle: &str) -> (r: bool)
    ensures
        r == some_line_contains(lines@, needle@),
{
    let mut i: usize = 0;
    while i < lines.len()
        invariant
            i <= lines@.len(),
            forall|m: int| 0 <= m < i ==> !#[trigger] contains_text(lines@[m]@, needle@),
        decreases lines@.len() - i,
    {
        if text_contains(lines[i].as_str(), needle) {
            return true;
        }
        i = i + 1;
    }
    false
}

/// The verdict on two terminal captures of an example, before and after
/// its action: both show the example, are not blank, name the example on
/// screen, and differ.
pub open spec fn terminal_capture_verdict(
    example: Seq<char>,
    selected: TerminalScreenCapture,
    after_action: TerminalScreenCapture,
) -> Result<(), Seq<char>> {
    if selected.selected_example@ != example || after_action.selected_example@ != example {
        Err("terminal selected example mismatch"@)
    } else if selected.nonblank_cells == 0 || after_action.nonblank_cells == 0 {
        Err("terminal capture is blank"@)
    } else if !some_line_contains(selected.lines@, example) || !some_line_contains(
        after_action.lines@,
        example,
    ) {
        Err("terminal screen does not include selected example name"@)
    } else if !terminal_changed(selected, after_action) {
        Err("terminal after-action state did not change for "@ + example)
    } else {
        Ok(())
    }
}

/// Checks two terminal captures of an example, before and after its action.
pub fn validate_terminal_capture(
    example: &str,
    selected: &TerminalScreenCapture,
    after_action: &TerminalScreenCapture,
) -> (r: Result<(), String>)
    ensures
        match terminal_capture_verdict(example@, *selected, *after_action) {
            Ok(()) => r is Ok,
            Err(e) => r matches Err(x) && x@ == e,
        },
{
    let ex = chars_of(example);
    let a = chars_of(selected.selected_example.as_str());
    let b = chars_of(after_action.selected_example.as_str());
    if !crate::text::chars_eq(a.as_slice(), ex.as_slice()) || !crate::text::chars_eq(
        b.as_slice(),
        ex.as_slice(),
    ) {
        return Err("terminal selected example mismatch".to_owned());
    }
    if selected.nonblank_cells == 0 || after_action.nonblank_cells == 0 {
        return Err("terminal capture is blank".to_owned());
    }
    if !any_line_contains(&selected.lines, example) || !any_line_contains(
        &after_action.lines,
        example,
    ) {
        return Err("terminal screen does not include selected example name".to_owned());
    }
    if !state_changed_terminal(selected, after_action) {
        let mut e = "terminal after-action state did not change for ".to_owned();
        push_str(&mut e, example);
        return Err(e);
    }
    Ok(())
}

/// A number in decimal, with zeros in front up to three digits.
pub open spec fn three_digits(n: nat) -> Seq<char> {
    if decimal(n).len() >= 3 {
        decimal(n)
    } else {
        chars_n('0', (3 - decimal(n).len()) as nat) + decimal(n)
    }
}

/// The file name of a captured terminal frame.
pub fn terminal_frame_name(frame_index: usize, ext: &str) -> (r: String)
    ensures
        r@ == "pty-frame-"@ + three_digits(frame_index as nat) + "."@ + ext@,
{
    let digits = u64_text(frame_index as u64);
    let dv = chars_of(digits.as_str());
    let mut r = "pty-frame-".to_owned();
    let ghost head = r@;
    if dv.len() < 3 {
        push_n(&mut r, '0', 3 - dv.len());
    }
    push_str(&mut r, digits.as_str());
    assert(r@ =~= head + three_digits(frame_index as nat));
    push_str(&mut r, ".");
    push_str(&mut r, ext);
    r
}

/// The file name of a screenshot step: terminal screens are prefixed.
pub fn screenshot_file_name(target: &str, step: &str) -> (r: String)
    ensures
        r@ == (if target@ == "terminal"@ {
            "screen-"@ + step@ + ".png"@
        } else {
            step@ + ".png"@
        }),
{
    let v = chars_of(target);
    let mut r = if spells(&v, "terminal") {
        "screen-".to_owned()
    } else {
        String::new()
    };
    let ghost head = r@;
    push_str(&mut r, step);
    push_str(&mut r, ".png");
    proof {
        if target@ != "terminal"@ {
            assert(r@ =~= step@ + ".png"@);
        }
    }
    r
}

/// The page the browser smoke run loads: it runs the wasm smoke and posts
/// the result back.
pub open spec fn smoke_page() -> Seq<char> {
    "<!doctype html>\n<meta charset=\"utf-8\">\n<script type=\"module\">\nimport init, { run_smoke_json } from \"./boon_wasm_smoke.js\";\ntry {\n  await init();\n  const result = JSON.stringify({\n    wasm_smoke: JSON.parse(run_smoke_json())\n  });\n  document.body.textContent = result;\n  await fetch(\"/result\", { method: \"POST\", body: result });\n} catch (error) {\n  document.body.textContent = String(\n    (error && error.message ? error.message + \"\\n\" : \"\") +\n    (error && error.stack || error)\n  );\n  await fetch(\"/result\", { method: \"POST\", body: document.body.textContent });\n  throw error;\n}\n</script>\n"@
}

/// The page the browser smoke run loads.
pub fn smoke_html() -> (r: &'static str)
    ensures
        r@ == smoke_page(),
{
    "<!doctype html>\n<meta charset=\"utf-8\">\n<script type=\"module\">\nimport init, { run_smoke_json } from \"./boon_wasm_smoke.js\";\ntry {\n  await init();\n  const result = JSON.stringify({\n    wasm_smoke: JSON.parse(run_smoke_json())\n  });\n  document.body.textContent = result;\n  await fetch(\"/result\", { method: \"POST\", body: result });\n} catch (error) {\n  document.body.textContent = String(\n    (error && error.message ? error.message + \"\\n\" : \"\") +\n    (error && error.stack || error)\n  );\n  await fetch(\"/result\", { method: \"POST\", body: document.body.textContent });\n  throw error;\n}\n</script>\n"
}

/// A text pattern whose presence means a retired renderer is still in use.
#[derive(Clone, Copy, Debug)]
pub struct OldRendererPattern {
    pub name: &'static str,
    pub needle: &'static str,
}

/// The retired renderers' patterns, as (name, text searched for).
pub open spec fn old_renderer_table() -> Seq<(Seq<char>, Seq<char>)> {
    seq![
        ("app_window"@, "app_window"@),
        ("boon_backend_wgpu"@, "boon_backend_wgpu"@),
        ("wgpu::"@, "wgpu::"@),
        ("create_render_pipeline"@, "create_render_pipeline"@),
        ("create_shader_module"@, "create_shader_module"@),
        ("SurfaceTargetUnsafe"@, "SurfaceTargetUnsafe"@),
        ("DeviceExt"@, "DeviceExt"@),
        ("Scene"@, "struct Scene"@),
        ("Primitive"@, "enum Primitive"@),
        ("scene_vertices"@, "scene_vertices"@),
        ("rect_vertices"@, "rect_vertices"@),
        ("text_vertices"@, "text_vertices"@),
        ("glyph"@, "glyph("@),
        ("browser-webgpu"@, "browser-webgpu"@),
        ("navigator.gpu"@, "navigator.gpu"@),
        ("requestAdapter"@, "requestAdapter"@),
        ("getContext(\"webgpu\")"@, "getContext(\"webgpu\")"@),
        ("beginRenderPass"@, "beginRenderPass"@),
        ("documentCreateButton"@, "document.createElement(\"button\")"@),
        ("fillRect"@, "fillRect"@),
        ("fillText"@, "fillText"@),
        ("wgpu-command-schema"@, "wgpu-command-schema"@),
        ("browser-webgpu-command-schema"@, "browser-webgpu-command-schema"@),
        ("ui_rect_wgsl"@, "ui_rect.wgsl"@)
    ]
}

/// The retired renderers' patterns.
pub fn old_renderer_patterns() -> (r: Vec<OldRendererPattern>)
    ensures
        r@.map_values(|p: OldRendererPattern| (p.name@, p.needle@)) == old_renderer_table(),
{
    let mut v: Vec<OldRendererPattern> = Vec::new();
    v.push(OldRendererPattern { name: "app_window", needle: "app_window" });
    v.push(OldRendererPattern { name: "boon_backend_wgpu", needle: "boon_backend_wgpu" });
    v.push(OldRendererPattern { name: "wgpu::", needle: "wgpu::" });
    v.push(OldRendererPattern { name: "create_render_pipeline", needle: "create_render_pipeline" });
    v.push(OldRendererPattern { name: "create_shader_module", needle: "create_shader_module" });
    v.push(OldRendererPattern { name: "SurfaceTargetUnsafe", needle: "SurfaceTargetUnsafe" });
    v.push(OldRendererPattern { name: "DeviceExt", needle: "DeviceExt" });
    v.push(OldRendererPattern { name: "Scene", needle: "struct Scene" });
    v.push(OldRendererPattern { name: "Primitive", needle: "enum Primitive" });
    v.push(OldRendererPattern { name: "scene_vertices", needle: "scene_vertices" });
    v.push(OldRendererPattern { name: "rect_vertices", needle: "rect_vertices" });
    v.push(OldRendererPattern { name: "text_vertices", needle: "text_vertices" });
    v.push(OldRendererPattern { name: "glyph", needle: "glyph(" });
    v.push(OldRendererPattern { name: "browser-webgpu", needle: "browser-webgpu" });
    v.push(OldRendererPattern { name: "navigator.gpu", needle: "navigator.gpu" });
    v.push(OldRendererPattern { name: "requestAdapter", needle: "requestAdapter" });
    v.push(OldRendererPattern { name: "getContext(\"webgpu\")", needle: "getContext(\"webgpu\")" });
    v.push(OldRendererPattern { name: "beginRenderPass", needle: "beginRenderPass" });
    v.push(OldRendererPattern { name: "documentCreateButton", needle: "document.createElement(\"button\")" });
    v.push(OldRendererPattern { name: "fillRect", needle: "fillRect" });
    v.push(OldRendererPattern { name: "fillText", needle: "fillText" });
    v.push(OldRendererPattern { name: "wgpu-command-schema", needle: "wgpu-command-schema" });
    v.push(OldRendererPattern { name: "browser-webgpu-command-schema", needle: "browser-webgpu-command-schema" });
    v.push(OldRendererPattern { name: "ui_rect_wgsl", needle: "ui_rect.wgsl" });
    assert(v@.map_values(|p: OldRendererPattern| (p.name@, p.needle@)) =~= old_renderer_table());
    v
}

/// The lines of a text from position `a` on, as `str::lines` yields them:
/// split at `\n`, a `\r` just before it dropped, and no empty line after a
/// final `\n`.
pub open spec fn lines_from(t: Seq<char>, a: int) -> Seq<Seq<char>>
    decreases t.len() - a,
{
    if 0 <= a < t.len() {
        let e = find_from(t, '\n', a, t.len() as int);
        let raw = t.subrange(a, e);
        let line = if e < t.len() && raw.len() > 0 && raw[raw.len() - 1] == '\r' {
            raw.drop_last()
        } else {
            raw
        };
        if a <= e < t.len() {
            seq![line] + lines_from(t, e + 1)
        } else {
            seq![line]
        }
    } else {
        Seq::empty()
    }
}

/// The patterns a line holds, as (line number, pattern name), in pattern
/// order.
pub open spec fn line_hits(line: Seq<char>, pats: Seq<OldRendererPattern>, number: int) -> Seq<(int, Seq<char>)>
    decreases pats.len(),
{
    if pats.len() == 0 {
        Seq::empty()
    } else {
        let last = pats[pats.len() - 1];
        line_hits(line, pats.drop_last(), number) + if contains_text(line, last.needle@) {
            seq![(number, last.name@)]
        } else {
            Seq::empty()
        }
    }
}

/// The hits of the lines from index `i` on, numbered from one.
pub open spec fn hits_from(lines: Seq<Seq<char>>, pats: Seq<OldRendererPattern>, i: int) -> Seq<(int, Seq<char>)>
    decreases lines.len() - i,
{
    if 0 <= i < lines.len() {
        line_hits(lines[i], pats, i + 1) + hits_from(lines, pats, i + 1)
    } else {
        Seq::empty()
    }
}

/// The hits of a whole text.
pub open spec fn text_hits(text: Seq<char>, pats: Seq<OldRendererPattern>) -> Seq<(int, Seq<char>)> {
    hits_from(lines_from(text, 0), pats, 0)
}

fn push_line_hits(
    out: &mut Vec<(usize, &'static str)>,
    line: &str,
    patterns: &[OldRendererPattern],
    number: usize,
)
    ensures
        final(out)@.map_values(|h: (usize, &'static str)| (h.0 as int, h.1@)) == old(out)@.map_values(
            |h: (usize, &'static str)| (h.0 as int, h.1@),
        ) + line_hits(line@, patterns@, number as int),
{
    let ghost start = out@.map_values(|h: (usize, &'static str)| (h.0 as int, h.1@));
    let mut k: usize = 0;
    while k < patterns.len()
        invariant
            k <= patterns@.len(),
            out@.map_values(|h: (usize, &'static str)| (h.0 as int, h.1@)) == start + line_hits(
                line@,
                patterns@.take(k as int),
                number as int,
            ),
        decreases patterns@.len() - k,
    {
        let ghost before = out@;
        assert(patterns@.take(k + 1).drop_last() =~= patterns@.take(k as int));
        if text_contains(line, patterns[k].needle) {
            out.push((number, patterns[k].name));
            assert(out@.map_values(|h: (usize, &'static str)| (h.0 as int, h.1@)) =~= before.map_values(
                |h: (usize, &'static str)| (h.0 as int, h.1@),
            ).push((number as int, patterns@[k as int].name@)));
        }
        k = k + 1;
        assert(start + line_hits(line@, patterns@.take(k as int), number as int) =~= start
            + line_hits(line@, patterns@.take(k - 1), number as int) + (if contains_text(
            line@,
            patterns@[k - 1].needle@,
        ) {
            seq![(number as int, patterns@[k - 1].name@)]
        } else {
            Seq::empty()
        }));
    }
    assert(patterns@.take(patterns@.len() as int) =~= patterns@);
}

/// Where a text holds a retired renderer's pattern: each line that holds one,
/// numbered from one, with the pattern's name, line by line and pattern by
/// pattern.
pub fn old_renderer_hits(text: &str, patterns: &[OldRendererPattern]) -> (r: Vec<(usize, &'static str)>)
    ensures
        r@.map_values(|h: (usize, &'static str)| (h.0 as int, h.1@)) == text_hits(text@, patterns@),
{
    let t = chars_of(text);
    let n = t.len();
    let mut out: Vec<(usize, &'static str)> = Vec::new();
    let ghost lines = lines_from(t@, 0);
    let mut a: usize = 0;
    let mut index: usize = 0;
    assert(out@.map_values(|h: (usize, &'static str)| (h.0 as int, h.1@)) =~= Seq::<(int, Seq<char>)>::empty());
    assert(Seq::<(int, Seq<char>)>::empty() + hits_from(lines, patterns@, 0) =~= hits_from(lines, patterns@, 0));
    while a < n
        invariant
            t@ == text@,
            n == t@.len(),
            lines == lines_from(t@, 0),
            a <= n,
            index <= a,
            lines_from(t@, a as int) == lines.skip(index as int),
            index <= lines.len(),
            out@.map_values(|h: (usize, &'static str)| (h.0 as int, h.1@)) + hits_from(lines, patterns@, index as int)
                == hits_from(lines, patterns@, 0),
        decreases n - a,
    {
        let e = find_char_pub(t.as_slice(), '\n', a, n);
        let line_end = if e < n && e > a && t[e - 1] == '\r' {
            e - 1
        } else {
            e
        };
        let line = crate::text::string_of_range(t.as_slice(), a, line_end);
        proof {
            let raw = t@.subrange(a as int, e as int);
            if e < n && e > a && t@[e - 1] == '\r' {
                assert(raw.drop_last() =~= t@.subrange(a as int, line_end as int));
            } else {
                assert(raw =~= t@.subrange(a as int, line_end as int));
            }
            assert(lines_from(t@, a as int).len() > 0);
            assert(index < lines.len());
            assert(lines.skip(index as int)[0] == line@);
            assert(lines.skip(index as int)[0] == lines[index as int]);
            if e < n {
                assert(lines.skip(index as int).drop_first() =~= lines.skip(index + 1));
                assert(lines_from(t@, e + 1) == lines.skip(index + 1));
            } else {
                assert(lines.skip(index as int).len() == 1);
            }
        }
        let ghost before = out@.map_values(|h: (usize, &'static str)| (h.0 as int, h.1@));
        push_line_hits(&mut out, line.as_str(), patterns, index + 1);
        proof {
            assert(before + hits_from(lines, patterns@, index as int) == hits_from(lines, patterns@, 0));
            assert(hits_from(lines, patterns@, index as int) == line_hits(lines[index as int], patterns@, index + 1)
                + hits_from(lines, patterns@, index + 1));
            assert(before + line_hits(lines[index as int], patterns@, index + 1) + hits_from(lines, patterns@, index + 1)
                =~= before + hits_from(lines, patterns@, index as int));
        }
        index = index + 1;
        if e < n {
            a = e + 1;
        } else {
            a = n;
            proof {
                assert(lines.skip(index as int) =~= Seq::<Seq<char>>::empty());
            }
        }
    }
    proof {
        assert(lines_from(t@, a as int) =~= Seq::<Seq<char>>::empty());
        assert(index == lines.len());
        assert(out@.map_values(|h: (usize, &'static str)| (h.0 as int, h.1@)) + Seq::<(int, Seq<char>)>::empty()
            =~= out@.map_values(|h: (usize, &'static str)| (h.0 as int, h.1@)));
    }
    out
}

/// What is measured of a screenshot file.
#[derive(Clone, Debug, PartialEq, Eq)]
pub struct ImageStats {
    pub width: u32,
    pub height: u32,
    pub byte_size: u64,
    pub unique_colors_sampled: usize,
    pub nontransparent_pixels: u64,
    pub average_luma_hash: String,
}

/// A size as `Debug` writes a pair: `(w, h)`.
pub open spec fn size_debug(p: (u32, u32)) -> Seq<char> {
    "("@ + decimal(p.0 as nat) + ", "@ + decimal(p.1 as nat) + ")"@
}

/// Sizes as `Debug` writes a list of pairs.
pub open spec fn sizes_debug_items(s: Seq<(u32, u32)>) -> Seq<char>
    decreases s.len(),
{
    if s.len() == 0 {
        Seq::empty()
    } else if s.len() == 1 {
        size_debug(s[0])
    } else {
        sizes_debug_items(s.drop_last()) + ", "@ + size_debug(s[s.len() - 1])
    }
}

fn sizes_debug(s: &Vec<(u32, u32)>) -> (r: String)
    ensures
        r@ == "["@ + sizes_debug_items(s@) + "]"@,
{
    let mut r = "[".to_owned();
    let ghost head = r@;
    let mut i: usize = 0;
    while i < s.len()
        invariant
            i <= s@.len(),
            r@ == head + sizes_debug_items(s@.take(i as int)),
        decreases s@.len() - i,
    {
        let ghost before = r@;
        if i > 0 {
            push_str(&mut r, ", ");
        }
        push_str(&mut r, "(");
        let w = u64_text(s[i].0 as u64);
        push_str(&mut r, w.as_str());
        push_str(&mut r, ", ");
        let h = u64_text(s[i].1 as u64);
        push_str(&mut r, h.as_str());
        push_str(&mut r, ")");
        proof {
            assert(s@.take(i + 1).drop_last() =~= s@.take(i as int));
            if i == 0 {
                assert(s@.take(0) =~= Seq::<(u32, u32)>::empty());
                assert(r@ =~= head + size_debug(s@[0]));
            } else {
                assert(r@ =~= head + (sizes_debug_items(s@.take(i as int)) + ", "@ + size_debug(s@[i as int])));
            }
        }
        i = i + 1;
    }
    assert(s@.take(s@.len() as int) =~= s@);
    push_str(&mut r, "]");
    r
}

/// Whether a size is among the accepted ones.
pub open spec fn size_accepted(sizes: Seq<(u32, u32)>, w: u32, h: u32) -> bool {
    exists|k: int| 0 <= k < sizes.len() && #[trigger] sizes[k] == (w, h)
}

/// The verdict on a screenshot's measurements: large enough, of an accepted
/// size, and neither blank nor a low-colour placeholder.
pub open spec fn screenshot_verdict(stats: ImageStats, path: Seq<char>, target: Seq<char>) -> Result<(), Seq<char>> {
    if stats.byte_size < min_screenshot_bytes(target) {
        Err("screenshot too small: "@ + path)
    } else if !size_accepted(screenshot_sizes(target), stats.width, stats.height) {
        Err("screenshot dimensions "@ + decimal(stats.width as nat) + "x"@ + decimal(stats.height as nat)
            + " do not match expected "@ + "["@ + sizes_debug_items(screenshot_sizes(target)) + "]"@
            + " for "@ + target + ": "@ + path)
    } else if stats.nontransparent_pixels == 0 || stats.unique_colors_sampled <= 16 {
        Err("screenshot appears blank or low-color placeholder: "@ + path)
    } else {
        Ok(())
    }
}

/// Checks a screenshot's measurements for a target.
pub fn validate_screenshot_stats(stats: &ImageStats, path: &str, target: &str) -> (r: Result<(), String>)
    ensures
        match screenshot_verdict(*stats, path@, target@) {
            Ok(()) => r is Ok,
            Err(e) => r matches Err(x) && x@ == e,
        },
{
    if stats.byte_size < minimum_screenshot_bytes(target) {
        let mut e = "screenshot too small: ".to_owned();
        push_str(&mut e, path);
        return Err(e);
    }
    let expected = expected_dimensions_for_target(target);
    let mut found = false;
    let mut k: usize = 0;
    while k < expected.len()
        invariant
            k <= expected@.len(),
            found == exists|m: int| 0 <= m < k && #[trigger] expected@[m] == (stats.width, stats.height),
        decreases expected@.len() - k,
    {
        if expected[k].0 == stats.width && expected[k].1 == stats.height {
            found = true;
        }
        k = k + 1;
    }
    if !found {
        let mut e = "screenshot dimensions ".to_owned();
        let w = u64_text(stats.width as u64);
        push_str(&mut e, w.as_str());
        push_str(&mut e, "x");
        let h = u64_text(stats.height as u64);
        push_str(&mut e, h.as_str());
        push_str(&mut e, " do not match expected ");
        let d = sizes_debug(&expected);
        push_str(&mut e, d.as_str());
        push_str(&mut e, " for ");
        push_str(&mut e, target);
        push_str(&mut e, ": ");
        push_str(&mut e, path);
        return Err(e);
    }
    if stats.nontransparent_pixels == 0 || stats.unique_colors_sampled <= 16 {
        let mut e = "screenshot appears blank or low-color placeholder: ".to_owned();
        push_str(&mut e, path);
        return Err(e);
    }
    Ok(())
}

/// The verdict on the arguments of the test task: `--target` names the
/// target (the last one counts), anything else is refused, and the target
/// must be one of the three surfaces.
pub open spec fn target_from(args: Seq<String>, i: int, target: Option<Seq<char>>) -> Result<Seq<char>, Seq<char>>
    decreases args.len() + 1 - i,
{
    if 0 <= i < args.len() {
        if args[i]@ == "--target"@ {
            let t = if i + 1 < args.len() { Some(args[i + 1]@) } else { None };
            target_from(args, i + 2, t)
        } else {
            Err("unknown test argument: "@ + args[i]@)
        }
    } else {
        match target {
            None => Err("missing --target"@),
            Some(t) => if t == "terminal"@ || t == "native"@ || t == "browser"@ {
                Ok(t)
            } else {
                Err("unknown test target: "@ + t)
            },
        }
    }
}

/// The surface the test task's arguments name.
pub fn test_target_arg(args: &[String]) -> (r: Result<String, String>)
    ensures
        match target_from(args@, 0, None) {
            Ok(t) => r matches Ok(x) && x@ == t,
            Err(e) => r matches Err(x) && x@ == e,
        },
{
    let mut target: Option<String> = None;
    let mut index: usize = 0;
    while index < args.len()
        invariant
            index <= args@.len(),
            target_from(args@, index as int, match target {
                Some(t) => Some(t@),
                None => None,
            }) == target_from(args@, 0, None),
        decreases args@.len() - index,
    {
        let a = chars_of(args[index].as_str());
        if spells(&a, "--target") {
            if index + 1 < args.len() {
                assert(args@[index + 1]@ == args[index + 1]@);
                target = Some(args[index + 1].clone());
                index = index + 2;
            } else {
                assert(target_from(args@, index + 2, None) == target_from(args@, args@.len() as int, None));
                target = None;
                index = args.len();
            }
        } else {
            let mut e = "unknown test argument: ".to_owned();
            push_str(&mut e, args[index].as_str());
            return Err(e);
        }
    }
    match target {
        None => Err("missing --target".to_owned()),
        Some(t) => {
            let v = chars_of(t.as_str());
            if spells(&v, "terminal") || spells(&v, "native") || spells(&v, "browser") {
                Ok(t)
            } else {
                let mut e = "unknown test target: ".to_owned();
                push_str(&mut e, t.as_str());
                Err(e)
            }
        },
    }
}

/// One scripted step of a surface run in the control manifest.
#[derive(Clone, Debug, PartialEq, Eq)]
pub struct ManifestAction {
    pub kind: String,
    pub name: Option<String>,
    pub value: Option<String>,
    pub semantic: Option<String>,
    pub field: Option<String>,
}

/// An example's entry in the control manifest.
#[derive(Clone, Debug, PartialEq, Eq)]
pub struct ManifestExample {
    pub required_targets: Vec<String>,
    pub notes: Option<String>,
    pub actions: Vec<ManifestAction>,
}

/// The kind and name of an action.
pub open spec fn action_kind_name(a: ManifestAction) -> (Seq<char>, Option<Seq<char>>) {
    (a.kind@, match a.name {
        Some(n) => Some(n@),
        None => None,
    })
}

/// An example as the screenshots read it: its actions' kinds and names.
impl View for ManifestExample {
    type V = Seq<(Seq<char>, Option<Seq<char>>)>;

    open spec fn view(&self) -> Seq<(Seq<char>, Option<Seq<char>>)> {
        self.actions@.map_values(|a: ManifestAction| action_kind_name(a))
    }
}

/// The control manifest of the surface runs.
#[derive(Debug, PartialEq, Eq)]
pub struct ControlManifest {
    pub version: u32,
    pub targets: Vec<String>,
    pub examples: StrMap<ManifestExample>,
}

/// The names of the screenshot actions, in order.
pub open spec fn screenshot_names(acts: Seq<(Seq<char>, Option<Seq<char>>)>) -> Seq<Seq<char>>
    decreases acts.len(),
{
    if acts.len() == 0 {
        Seq::empty()
    } else {
        let last = acts[acts.len() - 1];
        screenshot_names(acts.drop_last()) + if last.0 == "screenshot"@ && last.1 is Some {
            seq![last.1.unwrap()]
        } else {
            Seq::empty()
        }
    }
}

/// The screenshots an example's run must take: its named screenshot actions.
pub fn required_screenshots(manifest: &ControlManifest, example: &str) -> (r: Vec<String>)
    requires
        lookup(manifest.examples.model(), example@) is Some,
    ensures
        r@.map_values(|n: String| n@) == screenshot_names(lookup(manifest.examples.model(), example@).unwrap()),
{
    let entry = manifest.examples.get(example).unwrap();
    let ghost acts = entry@;
    let mut out: Vec<String> = Vec::new();
    let mut i: usize = 0;
    assert(out@.map_values(|n: String| n@) =~= Seq::<Seq<char>>::empty());
    while i < entry.actions.len()
        invariant
            acts == entry@,
            i <= entry.actions@.len(),
            out@.map_values(|n: String| n@) == screenshot_names(acts.take(i as int)),
        decreases entry.actions@.len() - i,
    {
        let a = &entry.actions[i];
        let ghost before = out@;
        assert(acts.take(i + 1).drop_last() =~= acts.take(i as int));
        assert(acts.take(i + 1)[i as int] == action_kind_name(*a));
        let k = chars_of(a.kind.as_str());
        if spells(&k, "screenshot") {
            match &a.name {
                Some(n) => {
                    out.push(n.clone());
                    assert(out@.map_values(|n: String| n@) =~= before.map_values(|n: String| n@).push(n@));
                },
                None => {
                    assert(screenshot_names(acts.take(i + 1)) =~= screenshot_names(acts.take(i as int)));
                },
            }
        } else {
            assert(screenshot_names(acts.take(i + 1)) =~= screenshot_names(acts.take(i as int)));
        }
        i = i + 1;
    }
    assert(acts.take(entry.actions@.len() as int) =~= acts);
    out
}

/// The position of the first name of `req`, from `k` on, that `have` lacks.
pub open spec fn first_absent(req: Seq<Seq<char>>, have: Seq<Seq<char>>, k: int) -> Option<int>
    decreases req.len() - k,
{
    if k < 0 || k >= req.len() {
        None
    } else if have.contains(req[k]) {
        first_absent(req, have, k + 1)
    } else {
        Some(k)
    }
}

proof fn lemma_first_absent_skip(req: Seq<Seq<char>>, have: Seq<Seq<char>>, k: int)
    requires
        0 <= k <= req.len(),
        forall|j: int| 0 <= j < k ==> have.contains(#[trigger] req[j]),
    ensures
        first_absent(req, have, 0) == first_absent(req, have, k),
    decreases k,
{
    if k > 0 {
        lemma_first_absent_skip(req, have, k - 1);
    }
}

fn has_name(have: &Vec<String>, name: &str) -> (r: bool)
    ensures
        r == texts(have@).contains(name@),
{
    let ghost hv = texts(have@);
    let mut i: usize = 0;
    while i < have.len()
        invariant
            i <= have@.len(),
            hv == texts(have@),
            forall|j: int| 0 <= j < i ==> hv[j] != name@,
        decreases have@.len() - i,
    {
        if string_eq_str(&have[i], name) {
            assert(hv[i as int] == name@);
            return true;
        }
        i = i + 1;
    }
    false
}

/// The first of the names `req` that `have` lacks.
fn first_absent_exec(req: &Vec<&'static str>, have: &Vec<String>) -> (r: Option<usize>)
    ensures
        r matches Some(k) ==> k < req@.len() && first_absent(lits(req@), texts(have@), 0) == Some(
            k as int,
        ),
        r is None ==> first_absent(lits(req@), texts(have@), 0) is None,
{
    let ghost rq = lits(req@);
    let ghost hv = texts(have@);
    let mut k: usize = 0;
    while k < req.len()
        invariant
            k <= req@.len(),
            rq == lits(req@),
            hv == texts(have@),
            forall|j: int| 0 <= j < k ==> hv.contains(#[trigger] rq[j]),
        decreases req@.len() - k,
    {
        if !has_name(have, req[k]) {
            proof {
                lemma_first_absent_skip(rq, hv, k as int);
            }
            return Some(k);
        }
        k = k + 1;
    }
    proof {
        lemma_first_absent_skip(rq, hv, k as int);
    }
    None
}

/// The verdict on a playground's report of the examples it loaded: it gives
/// a count, the count is that of the required examples, it gives the list,
/// and every required example is in it.
pub open spec fn playground_verdict(
    name: Seq<char>,
    count: Option<u64>,
    loaded: Option<Seq<Seq<char>>>,
    details: Seq<char>,
) -> Result<(), Seq<char>> {
    let req = required_example_names();
    match count {
        None => Err("playground artifact missing example_count"@),
        Some(c) => if c != req.len() {
            Err(name + " playground loaded "@ + decimal(c as nat) + " examples; expected "@ + decimal(
                req.len(),
            ))
        } else {
            match loaded {
                None => Err("playground artifact missing loaded_examples"@),
                Some(l) => match first_absent(req, l, 0) {
                    Some(k) => Err(name + " playground did not load required example "@ + req[k] + ": "@
                        + details),
                    None => Ok(()),
                },
            }
        },
    }
}

/// Checks a playground's report of its loaded examples: `count` and
/// `loaded` are what the report gives, `details` the report as text.
pub fn require_playground_examples(
    name: &str,
    count: Option<u64>,
    loaded: Option<&Vec<String>>,
    details: &str,
) -> (r: Result<(), String>)
    ensures
        match playground_verdict(
            name@,
            count,
            match loaded {
                Some(l) => Some(texts(l@)),
                None => None,
            },
            details@,
        ) {
            Ok(()) => r is Ok,
            Err(e) => r matches Err(x) && x@ == e,
        },
{
    let req = required_examples();
    let c = match count {
        None => {
            return Err("playground artifact missing example_count".to_owned());
        },
        Some(c) => c,
    };
    if c != req.len() as u64 {
        let mut e = name.to_owned();
        push_str(&mut e, " playground loaded ");
        let t = u64_text(c);
        push_str(&mut e, t.as_str());
        push_str(&mut e, " examples; expected ");
        let n = u64_text(req.len() as u64);
        push_str(&mut e, n.as_str());
        return Err(e);
    }
    let l = match loaded {
        None => {
            return Err("playground artifact missing loaded_examples".to_owned());
        },
        Some(l) => l,
    };
    match first_absent_exec(&req, l) {
        Some(k) => {
            let mut e = name.to_owned();
            push_str(&mut e, " playground did not load required example ");
            assert(lits(req@)[k as int] == req[k as int]@);
            push_str(&mut e, req[k]);
            push_str(&mut e, ": ");
            push_str(&mut e, details);
            Err(e)
        },
        None => Ok(()),
    }
}

/// The reports whose hashes a fresh-artifact report must list.
pub open spec fn fresh_artifact_files() -> Seq<Seq<char>> {
    seq!["headless-matrix.json"@, "native-smoke.json"@, "browser-smoke.json"@, "no-old-renderers.json"@]
}

/// The verdict on a fresh-artifact report: made from the current sources,
/// with a hash for each of the reports.
pub open spec fn fresh_report_verdict(
    source_hash: Option<Seq<char>>,
    current: Seq<char>,
    hashed: Option<Seq<Seq<char>>>,
) -> Result<(), Seq<char>> {
    if source_hash != Some(current) {
        Err("fresh artifact report source hash is stale"@)
    } else {
        match hashed {
            None => Err("fresh artifact report missing artifact hashes"@),
            Some(h) => match first_absent(fresh_artifact_files(), h, 0) {
                Some(k) => Err("fresh artifact report missing hash for "@ + fresh_artifact_files()[k]),
                None => Ok(()),
            },
        }
    }
}

/// Checks a fresh-artifact report: `source_hash` is the hash it records,
/// `hashed` the files it gives a hash for.
pub fn validate_fresh_artifact_report(
    source_hash: Option<&str>,
    current_source_hash: &str,
    hashed: Option<&Vec<String>>,
) -> (r: Result<(), String>)
    ensures
        match fresh_report_verdict(
            match source_hash {
                Some(s) => Some(s@),
                None => None,
            },
            current_source_hash@,
            match hashed {
                Some(h) => Some(texts(h@)),
                None => None,
            },
        ) {
            Ok(()) => r is Ok,
            Err(e) => r matches Err(x) && x@ == e,
        },
{
    let fresh = match source_hash {
        Some(s) => {
            let a = chars_of(s);
            let b = chars_of(current_source_hash);
            chars_eq(a.as_slice(), b.as_slice())
        },
        None => false,
    };
    if !fresh {
        return Err("fresh artifact report source hash is stale".to_owned());
    }
    let h = match hashed {
        None => {
            return Err("fresh artifact report missing artifact hashes".to_owned());
        },
        Some(h) => h,
    };
    let files = vec!["headless-matrix.json", "native-smoke.json", "browser-smoke.json", "no-old-renderers.json"];
    proof {
        reveal_strlit("headless-matrix.json");
        reveal_strlit("native-smoke.json");
        reveal_strlit("browser-smoke.json");
        reveal_strlit("no-old-renderers.json");
        assert(lits(files@) =~= fresh_artifact_files());
    }
    match first_absent_exec(&files, h) {
        Some(k) => {
            let mut e = "fresh artifact report missing hash for ".to_owned();
            assert(lits(files@)[k as int] == files[k as int]@);
            push_str(&mut e, files[k]);
            Err(e)
        },
        None => Ok(()),
    }
}


/// The verdict on a playground's report text: it is JSON, and what it gives
/// passes `playground_verdict`, with the report's compact text as details.
pub open spec fn playground_text_verdict(name: Seq<char>, path: Seq<char>, text: Seq<char>) -> Result<(), Seq<char>> {
    match json_document(text) {
        Err(e) => Err("playground artifact is not JSON: "@ + path + ": "@ + e),
        Ok(d) => playground_verdict(
            name,
            json_u64(json_get(d, "example_count"@)),
            match json_array(json_get(d, "loaded_examples"@)) {
                Some(items) => Some(str_items(items)),
                None => None,
            },
            match json_compact(text) {
                Some(t) => t,
                None => Seq::empty(),
            },
        ),
    }
}

/// Checks a playground's report, read from `path`.
pub fn check_playground_report(name: &str, path: &str, text: &str) -> (r: Result<(), String>)
    ensures
        match playground_text_verdict(name@, path@, text@) {
            Ok(()) => r is Ok,
            Err(e) => r matches Err(x) && x@ == e,
        },
{
    let d = match parse_json_document(text) {
        Err(e) => {
            let mut m = "playground artifact is not JSON: ".to_owned();
            push_str(&mut m, path);
            push_str(&mut m, ": ");
            push_str(&mut m, e.as_str());
            return Err(m);
        },
        Ok(d) => d,
    };
    let count = get_u64(&d, "example_count");
    let loaded = match get_array(&d, "loaded_examples") {
        Some(items) => Some(string_items(items)),
        None => None,
    };
    let details = match compact_json_text(text) {
        Some(t) => t,
        None => String::new(),
    };
    require_playground_examples(name, count, loaded.as_ref(), details.as_str())
}

/// The verdict on a fresh-artifact report text: it is JSON, and what it
/// gives passes `fresh_report_verdict`.
pub open spec fn fresh_text_verdict(text: Seq<char>, current: Seq<char>) -> Result<(), Seq<char>> {
    match json_document(text) {
        Err(e) => Err(e),
        Ok(d) => fresh_report_verdict(
            json_str(json_get(d, "source_hash"@)),
            current,
            json_str_keys(json_get(d, "artifact_hashes"@)),
        ),
    }
}

/// Checks a fresh-artifact report text against the current source hash.
pub fn check_fresh_report(text: &str, current_source_hash: &str) -> (r: Result<(), String>)
    ensures
        match fresh_text_verdict(text@, current_source_hash@) {
            Ok(()) => r is Ok,
            Err(e) => r matches Err(x) && x@ == e,
        },
{
    let d = match parse_json_document(text) {
        Err(e) => {
            return Err(e);
        },
        Ok(d) => d,
    };
    let hash = match get_str(&d, "source_hash") {
        Some(h) => Some(h.as_str()),
        None => None,
    };
    let keys = string_keys(get(&d, "artifact_hashes"));
    validate_fresh_artifact_report(hash, current_source_hash, keys.as_ref())
}


/// The names of the steps that did not pass, in order.
pub open spec fn failed_names(steps: Seq<(String, String)>) -> Seq<Seq<char>>
    decreases steps.len(),
{
    if steps.len() == 0 {
        Seq::empty()
    } else {
        let rest = failed_names(steps.drop_last());
        if steps.last().1@ == "passed"@ {
            rest
        } else {
            rest.push(steps.last().0@)
        }
    }
}

/// The outcome of a verification run from its steps, each a name and a
/// status: it succeeds when every step passed, and lists those that did not.
pub fn verify_summary(steps: &Vec<(String, String)>) -> (r: (bool, Vec<String>))
    ensures
        r.0 == (forall|i: int| 0 <= i < steps@.len() ==> (#[trigger] steps@[i]).1@ == "passed"@),
        texts(r.1@) == failed_names(steps@),
        r.0 <==> r.1@.len() == 0,
{
    let mut failed: Vec<String> = Vec::new();
    let mut all = true;
    let mut i: usize = 0;
    while i < steps.len()
        invariant
            i <= steps@.len(),
            all == (forall|j: int| 0 <= j < i ==> (#[trigger] steps@[j]).1@ == "passed"@),
            texts(failed@) == failed_names(steps@.take(i as int)),
            all <==> failed@.len() == 0,
        decreases steps@.len() - i,
    {
        assert(steps@.take(i + 1).drop_last() =~= steps@.take(i as int));
        assert(steps@.take(i + 1).last() == steps@[i as int]);
        if !string_eq_str(&steps[i].1, "passed") {
            let ghost before = texts(failed@);
            failed.push(steps[i].0.clone());
            assert(texts(failed@) =~= before.push(steps@[i as int].0@));
            all = false;
        }
        i = i + 1;
    }
    assert(steps@.take(i as int) =~= steps@);
    (all, failed)
}

/// The crates the plan requires.
pub open spec fn plan_crates() -> Seq<Seq<char>> {
    seq![
        "boon_syntax"@,
        "boon_hir"@,
        "boon_shape"@,
        "boon_host_schema"@,
        "boon_source"@,
        "boon_dd"@,
        "boon_runtime_host"@,
        "boon_compiler"@,
        "boon_codegen_rust"@,
        "boon_render_ir"@,
        "boon_backend_ratatui"@,
        "boon_backend_ply"@,
        "boon_examples"@,
        "boon_verify"@,
    ]
}

/// The crates the plan requires, each by its directory under `crates`.
pub fn required_plan_crates() -> (r: Vec<&'static str>)
    ensures
        lits(r@) == plan_crates(),
{
    let r = vec![
        "boon_syntax",
        "boon_hir",
        "boon_shape",
        "boon_host_schema",
        "boon_source",
        "boon_dd",
        "boon_runtime_host",
        "boon_compiler",
        "boon_codegen_rust",
        "boon_render_ir",
        "boon_backend_ratatui",
        "boon_backend_ply",
        "boon_examples",
        "boon_verify",
    ];
    assert(lits(r@) =~= plan_crates());
    r
}

/// The files generated for each example, relative to its directory.
pub open spec fn generated_files() -> Seq<Seq<char>> {
    seq![
        "graph_static.json"@,
        "Cargo.toml"@,
        "src/lib.rs"@,
        "src/graph.rs"@,
        "src/ids.rs"@,
        "src/source_events.rs"@,
        "src/shapes.rs"@,
        "src/values.rs"@,
        "src/render_bindings.rs"@,
        "src/monitor_bindings.rs"@,
        "src/persist_bindings.rs"@,
        "monitor_snapshot.json"@,
        "terminal_120x40.snapshot.txt"@,
        "native_render_1280x720.json"@,
        "browser_render_1280x720.json"@,
    ]
}

/// `generated/<example>/<file>` for each file generated for an example.
pub open spec fn example_paths(example: Seq<char>) -> Seq<Seq<char>> {
    generated_files().map_values(|f: Seq<char>| "generated/"@ + example + "/"@ + f)
}

/// The generated paths of the first `n` examples, example by example.
pub open spec fn examples_paths(examples: Seq<Seq<char>>, n: int) -> Seq<Seq<char>>
    decreases n,
{
    if n <= 0 || n > examples.len() {
        Seq::empty()
    } else {
        examples_paths(examples, n - 1) + example_paths(examples[n - 1])
    }
}

/// The generated files that the plan requires of every required example.
pub fn required_generated_paths() -> (r: Vec<String>)
    ensures
        texts(r@) == examples_paths(required_example_names(), required_example_names().len() as int),
{
    let examples = required_examples();
    let files = vec![
        "graph_static.json",
        "Cargo.toml",
        "src/lib.rs",
        "src/graph.rs",
        "src/ids.rs",
        "src/source_events.rs",
        "src/shapes.rs",
        "src/values.rs",
        "src/render_bindings.rs",
        "src/monitor_bindings.rs",
        "src/persist_bindings.rs",
        "monitor_snapshot.json",
        "terminal_120x40.snapshot.txt",
        "native_render_1280x720.json",
        "browser_render_1280x720.json",
    ];
    assert(lits(files@) =~= generated_files());
    let ghost names = required_example_names();
    let mut out: Vec<String> = Vec::new();
    let mut k: usize = 0;
    while k < examples.len()
        invariant
            k <= examples@.len(),
            lits(examples@) == names,
            names == required_example_names(),
            lits(files@) == generated_files(),
            texts(out@) == examples_paths(names, k as int),
        decreases examples@.len() - k,
    {
        let ghost base = texts(out@);
        let mut j: usize = 0;
        assert(lits(examples@)[k as int] == examples@[k as int]@);
        while j < files.len()
            invariant
                k < examples@.len(),
                j <= files@.len(),
                lits(files@) == generated_files(),
                lits(examples@) == names,
                texts(out@) == base + example_paths(names[k as int]).take(j as int),
            decreases files@.len() - j,
        {
            let mut p = "generated/".to_owned();
            push_str(&mut p, examples[k]);
            push_str(&mut p, "/");
            push_str(&mut p, files[j]);
            let ghost before = texts(out@);
            assert(lits(files@)[j as int] == files@[j as int]@);
            out.push(p);
            assert(texts(out@) =~= before.push(p@));
            assert(example_paths(names[k as int]).take(j + 1) =~= example_paths(names[k as int]).take(
                j as int,
            ).push(p@));
            j = j + 1;
        }
        assert(example_paths(names[k as int]).take(j as int) =~= example_paths(names[k as int]));
        k = k + 1;
    }
    out
}

/// The verdict on the plan's coverage: no required crate or path is
/// missing and the forbidden-pattern scan found nothing; otherwise the
/// report at `artifact` says what is missing.
pub open spec fn plan_coverage(missing_crates: nat, missing_paths: nat, forbidden_hits: nat, artifact: Seq<char>) -> Result<(), Seq<char>> {
    if missing_crates > 0 || missing_paths > 0 || forbidden_hits > 0 {
        Err("plan coverage is incomplete; see "@ + artifact)
    } else {
        Ok(())
    }
}

/// Checks the plan's coverage from what was found missing.
pub fn plan_coverage_verdict(
    missing_crates: &Vec<String>,
    missing_paths: &Vec<String>,
    forbidden_hits: usize,
    artifact: &str,
) -> (r: Result<(), String>)
    ensures
        match plan_coverage(missing_crates@.len(), missing_paths@.len(), forbidden_hits as nat, artifact@) {
            Ok(()) => r is Ok,
            Err(e) => r matches Err(x) && x@ == e,
        },
{
    if missing_crates.len() > 0 || missing_paths.len() > 0 || forbidden_hits > 0 {
        let mut e = "plan coverage is incomplete; see ".to_owned();
        push_str(&mut e, artifact);
        Err(e)
    } else {
        Ok(())
    }
}


/// The documents and reports the plan requires besides the generated files.
pub open spec fn plan_fixed_paths() -> Seq<Seq<char>> {
    seq![
        "ARCHITECTURE.md"@,
        "target/boon-artifacts/wasm-bindgen/smoke-result.json"@,
        "target/boon-artifacts/ply/headless-matrix.json"@,
        "target/boon-artifacts/ply/native-smoke.json"@,
        "target/boon-artifacts/ply/browser-smoke.json"@,
        "target/boon-artifacts/ply/no-old-renderers.json"@,
        "target/boon-artifacts/ply/fresh-artifacts.json"@,
        "target/boon-artifacts/ply/ai-review-prompts.json"@,
        "target/boon-artifacts/ply/ai-review-reports.json"@,
        "BOON_DD_PLY_HUMAN_SURFACE_VERIFICATION_PLAN.md"@,
        "docs/ply-human-surfaces/control-manifest.toml"@,
        "target/boon-artifacts/ply-human-surfaces/matrix.json"@,
        "target/boon-artifacts/ply-human-surfaces/success.json"@,
        "target/boon-artifacts/ply-human-surfaces/screenshot-validation.json"@,
        "target/boon-artifacts/ply-human-surfaces/fresh-artifacts.json"@,
        "target/boon-artifacts/ply-human-surfaces/ai-review-prompts.json"@,
        "target/boon-artifacts/ply-human-surfaces/ai-review-reports.json"@,
        "docs/prompts/renderer-ply-human-surfaces/human-surface-coverage-review.prompt.md"@,
        "docs/prompts/renderer-ply-human-surfaces/screenshot-authenticity-review.prompt.md"@,
        "docs/prompts/renderer-ply-human-surfaces/target-control-review.prompt.md"@,
        "docs/prompts/renderer-ply-human-surfaces/stale-artifact-review.prompt.md"@,
        "docs/prompts/renderer-ply-human-surfaces/fake-pass-harness-review.prompt.md"@,
        "docs/prompts/renderer-ply-human-surfaces/example-behavior-review.prompt.md"@,
        "docs/prompts/renderer-ply/architecture.prompt.md"@,
        "docs/prompts/renderer-ply/old-renderer-removal.prompt.md"@,
        "docs/prompts/renderer-ply/native-browser-behavior.prompt.md"@,
        "docs/prompts/renderer-ply/fake-pass-verifier.prompt.md"@,
        "docs/prompts/renderer-ply/stale-artifact.prompt.md"@,
        "docs/prompts/renderer-ply/dependency-boundary.prompt.md"@,
    ]
}


/// Every path the plan requires: the documents and reports, then the
/// generated files of each required example.
pub fn required_plan_paths() -> (r: Vec<String>)
    ensures
        texts(r@) == plan_fixed_paths() + examples_paths(
            required_example_names(),
            required_example_names().len() as int,
        ),
{
    let fixed = vec![
        "ARCHITECTURE.md",
        "target/boon-artifacts/wasm-bindgen/smoke-result.json",
        "target/boon-artifacts/ply/headless-matrix.json",
        "target/boon-artifacts/ply/native-smoke.json",
        "target/boon-artifacts/ply/browser-smoke.json",
        "target/boon-artifacts/ply/no-old-renderers.json",
        "target/boon-artifacts/ply/fresh-artifacts.json",
        "target/boon-artifacts/ply/ai-review-prompts.json",
        "target/boon-artifacts/ply/ai-review-reports.json",
        "BOON_DD_PLY_HUMAN_SURFACE_VERIFICATION_PLAN.md",
        "docs/ply-human-surfaces/control-manifest.toml",
        "target/boon-artifacts/ply-human-surfaces/matrix.json",
        "target/boon-artifacts/ply-human-surfaces/success.json",
        "target/boon-artifacts/ply-human-surfaces/screenshot-validation.json",
        "target/boon-artifacts/ply-human-surfaces/fresh-artifacts.json",
        "target/boon-artifacts/ply-human-surfaces/ai-review-prompts.json",
        "target/boon-artifacts/ply-human-surfaces/ai-review-reports.json",
        "docs/prompts/renderer-ply-human-surfaces/human-surface-coverage-review.prompt.md",
        "docs/prompts/renderer-ply-human-surfaces/screenshot-authenticity-review.prompt.md",
        "docs/prompts/renderer-ply-human-surfaces/target-control-review.prompt.md",
        "docs/prompts/renderer-ply-human-surfaces/stale-artifact-review.prompt.md",
        "docs/prompts/renderer-ply-human-surfaces/fake-pass-harness-review.prompt.md",
        "docs/prompts/renderer-ply-human-surfaces/example-behavior-review.prompt.md",
        "docs/prompts/renderer-ply/architecture.prompt.md",
        "docs/prompts/renderer-ply/old-renderer-removal.prompt.md",
        "docs/prompts/renderer-ply/native-browser-behavior.prompt.md",
        "docs/prompts/renderer-ply/fake-pass-verifier.prompt.md",
        "docs/prompts/renderer-ply/stale-artifact.prompt.md",
        "docs/prompts/renderer-ply/dependency-boundary.prompt.md",
    ];
    assert(lits(fixed@) =~= plan_fixed_paths());
    let mut out: Vec<String> = Vec::new();
    let mut i: usize = 0;
    while i < fixed.len()
        invariant
            i <= fixed@.len(),
            lits(fixed@) == plan_fixed_paths(),
            texts(out@) == plan_fixed_paths().take(i as int),
        decreases fixed@.len() - i,
    {
        let ghost before = texts(out@);
        assert(lits(fixed@)[i as int] == fixed@[i as int]@);
        out.push(fixed[i].to_owned());
        assert(texts(out@) =~= before.push(fixed@[i as int]@));
        assert(plan_fixed_paths().take(i + 1) =~= plan_fixed_paths().take(i as int).push(fixed@[i as int]@));
        i = i + 1;
    }
    assert(plan_fixed_paths().take(i as int) =~= plan_fixed_paths());
    let generated = required_generated_paths();
    let mut j: usize = 0;
    let ghost base = texts(out@);
    while j < generated.len()
        invariant
            j <= generated@.len(),
            texts(out@) == base + texts(generated@).take(j as int),
        decreases generated@.len() - j,
    {
        let ghost before = texts(out@);
        out.push(generated[j].clone());
        assert(texts(out@) =~= before.push(generated@[j as int]@));
        assert(texts(generated@).take(j + 1) =~= texts(generated@).take(j as int).push(generated@[j as int]@));
        j = j + 1;
    }
    assert(texts(generated@).take(j as int) =~= texts(generated@));
    out
}

} // verus!
