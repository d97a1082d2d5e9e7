//! The Hyprland side: where its IPC socket lives, how to read its replies,
//! and the commands sent to it for the overlay and settings windows.

use vstd::prelude::*;
use crate::paths::{path_exists, path_of};
use crate::text::{
    cat, format_i32, fmt_int, opt_text, opt_string_text, texts,
    chars_of, find_char, is_white, lemma_fmt_int_shape, lemma_parse_fmt_i32, lemma_trimmed_plain, other_than, white, find_char_spec, is_ascii_digit, is_digit, lead_count, lemma_lead_count,
    parse_i32, parse_i32_spec, slice_chars, string_of, trim, trim_start, trimmed, trimmed_start,
};

verus! {

/// The reply to Hyprland's `cursorpos` request, `"x, y"`, read as two
/// `i32`s: the reply is trimmed, split at its first comma, and each part is
/// trimmed and read as a decimal `i32`.
pub open spec fn cursor_reply(r: Seq<char>) -> Option<(i32, i32)> {
    let t = trimmed(r);
    match find_char_spec(t, ',') {
        None => None,
        Some(k) => match (parse_i32_spec(trimmed(t.take(k))), parse_i32_spec(trimmed(t.skip(k + 1)))) {
            (Some(x), Some(y)) => Some((x, y)),
            _ => None,
        },
    }
}

/// The cursor position in a reply to Hyprland's `cursorpos` request.
pub fn cursor_pos(reply: &str) -> (r: Option<(i32, i32)>)
    ensures
        r == cursor_reply(reply@),
{
    let all = chars_of(reply);
    let t = trim(all.as_slice());
    let k = match find_char(t.as_slice(), ',') {
        Some(k) => k,
        None => return None,
    };
    let left = slice_chars(t.as_slice(), 0, k);
    let right = slice_chars(t.as_slice(), k + 1, t.len());
    let x = parse_i32(trim(left.as_slice()).as_slice());
    let y = parse_i32(trim(right.as_slice()).as_slice());
    match (x, y) {
        (Some(x), Some(y)) => Some((x, y)),
        _ => None,
    }
}

/// What Hyprland writes for a cursor at `(x, y)`: `"x, y"`.
pub open spec fn cursor_text(x: i32, y: i32) -> Seq<char> {
    fmt_int(x as int) + ", "@ + fmt_int(y as int)
}

/// Reading a cursor position back from the text Hyprland writes for it gives
/// that position.
pub proof fn lemma_cursor_reply_roundtrip(x: i32, y: i32)
    ensures
        cursor_reply(cursor_text(x, y)) == Some((x, y)),
{
    reveal_strlit(", ");
    let a = fmt_int(x as int);
    let b = fmt_int(y as int);
    let s = cursor_text(x, y);
    lemma_fmt_int_shape(x as int);
    lemma_fmt_int_shape(y as int);
    assert((',' as u32) == 44 && (' ' as u32) == 32 && ('-' as u32) == 45);
    assert(s.len() == a.len() + 2 + b.len());
    assert(s[0] == a[0]);
    assert(s.last() == b.last());
    lemma_trimmed_plain(s);
    assert forall|i: int| 0 <= i < a.len() implies #[trigger] other_than(',')(s[i]) by {
        assert(s[i] == a[i]);
        assert(is_digit(a[i]) || a[i] == '-');
    }
    assert(s[a.len() as int] == ',');
    lemma_lead_count(s, other_than(','), a.len() as int);
    assert(s.take(a.len() as int) =~= a);
    lemma_trimmed_plain(a);
    let r = s.skip(a.len() as int + 1);
    assert(r[0] == ' ');
    assert(r[1] == b[0]);
    assert(is_white(' '));
    assert(white()(r[0]));
    lemma_lead_count(r, white(), 1);
    let rb = r.skip(1);
    assert(rb =~= b);
    lemma_trimmed_plain(b);
    lemma_lead_count(b, white(), 0);
    assert(b.skip(0) =~= b);
    assert(trimmed(r) == b);
    assert(trimmed(s) == s);
    assert(find_char_spec(s, ',') == Some(a.len() as int));
    lemma_parse_fmt_i32(x);
    lemma_parse_fmt_i32(y);
}

/// `key` occurs in `h` starting at index `i`.
pub open spec fn occurs_at(h: Seq<char>, key: Seq<char>, i: int) -> bool {
    0 <= i && i + key.len() <= h.len() && h.subrange(i, i + key.len()) == key
}

/// The first index at or after `i` where `key` occurs in `h`.
pub open spec fn find_from(h: Seq<char>, key: Seq<char>, i: int) -> Option<int>
    decreases h.len() + 1 - i,
{
    if i < 0 || i + key.len() > h.len() {
        None
    } else if occurs_at(h, key, i) {
        Some(i)
    } else {
        find_from(h, key, i + 1)
    }
}

/// Characters that can make up a plain JSON number here: digits, `.` and `-`.
pub open spec fn is_number_char(c: char) -> bool {
    is_digit(c) || c == '.' || c == '-'
}

pub open spec fn number_char() -> spec_fn(char) -> bool {
    |c: char| is_number_char(c)
}

/// The number text that follows the first `key` in `h`: after the key, white
/// space is skipped and the longest run of digits, `.` and `-` is taken.
/// `None` when `key` does not occur.
pub open spec fn number_text_after(h: Seq<char>, key: Seq<char>) -> Option<Seq<char>> {
    match find_from(h, key, 0) {
        None => None,
        Some(i) => {
            let rest = trimmed_start(h.skip(i + key.len()));
            Some(rest.take(lead_count(rest, number_char()) as int))
        },
    }
}

/// A found index is an occurrence at or after the starting point.
pub proof fn lemma_find_from(h: Seq<char>, key: Seq<char>, i: int)
    ensures
        find_from(h, key, i) matches Some(j) ==> occurs_at(h, key, j) && i <= j,
    decreases h.len() + 1 - i,
{
    if !(i < 0 || i + key.len() > h.len()) && !occurs_at(h, key, i) {
        lemma_find_from(h, key, i + 1);
    }
}

fn occurs_here(h: &[char], key: &[char], i: usize) -> (b: bool)
    requires
        i + key.len() <= h.len(),
    ensures
        b == occurs_at(h@, key@, i as int),
{
    let mut j: usize = 0;
    while j < key.len()
        invariant
            j <= key.len(),
            i + key.len() <= h.len(),
            forall|m: int| 0 <= m < j ==> h@[i + m] == key@[m],
        decreases key.len() - j,
    {
        if h[i + j] != key[j] {
            proof {
                assert(h@.subrange(i as int, i + key.len())[j as int] != key@[j as int]);
            }
            return false;
        }
        j = j + 1;
    }
    proof {
        assert(h@.subrange(i as int, i + key.len()) =~= key@);
    }
    true
}

/// The first index where `key` occurs in `h` (`str::find`, counted in chars).
pub fn find_text(h: &[char], key: &[char]) -> (r: Option<usize>)
    ensures
        match r {
            Some(i) => find_from(h@, key@, 0) == Some(i as int),
            None => find_from(h@, key@, 0) is None,
        },
{
    if key.len() > h.len() {
        return None;
    }
    let last = h.len() - key.len();
    let mut i: usize = 0;
    loop
        invariant
            key.len() <= h.len(),
            last == h.len() - key.len(),
            i <= last,
            find_from(h@, key@, 0) == find_from(h@, key@, i as int),
        decreases last - i,
    {
        if occurs_here(h, key, i) {
            return Some(i);
        }
        if i == last {
            return None;
        }
        i = i + 1;
    }
}

/// The number text after `key` in `haystack`, which Hyprland's JSON replies
/// hold as `"width":1920` and the like.
pub fn number_after(haystack: &str, key: &str) -> (r: Option<String>)
    ensures
        match r {
            Some(t) => number_text_after(haystack@, key@) == Some(t@),
            None => number_text_after(haystack@, key@) is None,
        },
{
    let h = chars_of(haystack);
    let k = chars_of(key);
    let idx = match find_text(h.as_slice(), k.as_slice()) {
        Some(i) => i,
        None => return None,
    };
    proof {
        lemma_find_from(h@, k@, 0);
        assert(occurs_at(h@, k@, idx as int));
        assert(k@.len() == k.len());
        assert(idx + k.len() <= h.len());
    }
    let after = slice_chars(h.as_slice(), idx + k.len(), h.len());
    let rest = trim_start(after.as_slice());
    let mut n: usize = 0;
    while n < rest.len() && (is_ascii_digit(rest[n]) || rest[n] == '.' || rest[n] == '-')
        invariant
            n <= rest.len(),
            forall|j: int| 0 <= j < n ==> #[trigger] is_number_char(rest@[j]),
        decreases rest.len() - n,
    {
        n = n + 1;
    }
    proof {
        assert forall|j: int| 0 <= j < n implies #[trigger] number_char()(rest@[j]) by {
            assert(is_number_char(rest@[j]));
        }
        lemma_lead_count(rest@, number_char(), n as int);
    }
    let text = slice_chars(rest.as_slice(), 0, n);
    Some(string_of(text.as_slice()))
}


/// The title of the transparent overlay window, which the compositor rules
/// match on.
pub open spec fn overlay_title() -> Seq<char> {
    "cursorpet-overlay"@
}

/// The rule matcher for the overlay window.
pub open spec fn overlay_match() -> Seq<char> {
    "match:title ^("@ + overlay_title() + ")$"@
}

/// The rule matcher for the settings window, whose title starts with
/// "Cursor Pet".
pub open spec fn settings_match() -> Seq<char> {
    "match:title ^(Cursor Pet).*$"@
}

/// The command that registers window rule `rule` for windows that `m` matches.
pub open spec fn windowrule(rule: Seq<char>, m: Seq<char>) -> Seq<char> {
    "keyword windowrule "@ + rule + ", "@ + m
}

/// The rules that make the overlay float, stay pinned, never take focus,
/// show without blur, dim, shadow or animation, stay fully opaque, and cover
/// `w` by `h` logical pixels from the top left corner.
pub open spec fn overlay_rules(w: i32, h: i32) -> Seq<Seq<char>> {
    seq![
        "float on"@,
        "pin on"@,
        "no_blur on"@,
        "no_dim on"@,
        "no_shadow on"@,
        "no_anim on"@,
        "no_focus on"@,
        "no_initial_focus on"@,
        "opacity 1.0 override 1.0 override 1.0"@,
        "rounding 0"@,
        "size "@ + fmt_int(w as int) + " "@ + fmt_int(h as int),
        "move 0 0"@,
    ]
}

/// The rules for the settings window: floating, centred, not dimmed.
pub open spec fn settings_rules() -> Seq<Seq<char>> {
    seq!["float on"@, "center on"@, "no_dim on"@]
}

/// Each rule turned into its `keyword windowrule` command.
pub open spec fn windowrules(rules: Seq<Seq<char>>, m: Seq<char>) -> Seq<Seq<char>> {
    rules.map_values(|r: Seq<char>| windowrule(r, m))
}

fn rule_command(rule: &str, m: &str) -> (s: String)
    ensures
        s@ == windowrule(rule@, m@),
{
    cat(cat(cat("keyword windowrule ", rule).as_str(), ", ").as_str(), m)
}

/// The commands that register the overlay's window rules, in the order they
/// are sent; the overlay is `w` by `h` logical pixels.
pub fn overlay_rule_commands(w: i32, h: i32) -> (v: Vec<String>)
    ensures
        texts(v@) == windowrules(overlay_rules(w, h), overlay_match()),
{
    let m = cat(cat("match:title ^(", "cursorpet-overlay").as_str(), ")$");
    let size = cat(cat(cat("size ", format_i32(w).as_str()).as_str(), " ").as_str(), format_i32(h).as_str());
    let mut v: Vec<String> = Vec::new();
    v.push(rule_command("float on", m.as_str()));
    v.push(rule_command("pin on", m.as_str()));
    v.push(rule_command("no_blur on", m.as_str()));
    v.push(rule_command("no_dim on", m.as_str()));
    v.push(rule_command("no_shadow on", m.as_str()));
    v.push(rule_command("no_anim on", m.as_str()));
    v.push(rule_command("no_focus on", m.as_str()));
    v.push(rule_command("no_initial_focus on", m.as_str()));
    v.push(rule_command("opacity 1.0 override 1.0 override 1.0", m.as_str()));
    v.push(rule_command("rounding 0", m.as_str()));
    v.push(rule_command(size.as_str(), m.as_str()));
    v.push(rule_command("move 0 0", m.as_str()));
    proof {
        assert(texts(v@) =~= windowrules(overlay_rules(w, h), overlay_match()));
    }
    v
}

/// The commands that register the settings window's rules.
pub fn settings_rule_commands() -> (v: Vec<String>)
    ensures
        texts(v@) == windowrules(settings_rules(), settings_match()),
{
    let m = "match:title ^(Cursor Pet).*$";
    let mut v: Vec<String> = Vec::new();
    v.push(rule_command("float on", m));
    v.push(rule_command("center on", m));
    v.push(rule_command("no_dim on", m));
    proof {
        assert(texts(v@) =~= windowrules(settings_rules(), settings_match()));
    }
    v
}

/// The window selector for the overlay in `dispatch` commands.
pub open spec fn overlay_selector() -> Seq<char> {
    "title:^("@ + overlay_title() + ")$"@
}

/// The `dispatch` commands that float the overlay, size it to `w` by `h`
/// pixels and move it to the top left corner, once it exists.
pub open spec fn overlay_dispatches(w: i32, h: i32) -> Seq<Seq<char>> {
    seq![
        "dispatch setfloating "@ + overlay_selector(),
        "dispatch resizewindowpixel exact "@ + fmt_int(w as int) + " "@ + fmt_int(h as int) + ","@
            + overlay_selector(),
        "dispatch movewindowpixel exact 0 0,"@ + overlay_selector(),
    ]
}

/// The `dispatch` commands sent once the overlay window is open.
pub fn overlay_dispatch_commands(w: i32, h: i32) -> (v: Vec<String>)
    ensures
        texts(v@) == overlay_dispatches(w, h),
{
    let t = cat(cat("title:^(", "cursorpet-overlay").as_str(), ")$");
    let mut v: Vec<String> = Vec::new();
    v.push(cat("dispatch setfloating ", t.as_str()));
    let size = cat(
        cat(
            cat(cat("dispatch resizewindowpixel exact ", format_i32(w).as_str()).as_str(), " ").as_str(),
            format_i32(h).as_str(),
        ).as_str(),
        ",",
    );
    v.push(cat(size.as_str(), t.as_str()));
    v.push(cat("dispatch movewindowpixel exact 0 0,", t.as_str()));
    proof {
        assert(texts(v@) =~= overlay_dispatches(w, h));
    }
    v
}

/// Where Hyprland's IPC socket may be, in the order they are tried: under
/// the runtime directory (`/run/user/1000` when it is not known), then
/// under `/tmp`.
pub open spec fn socket_candidates(runtime_dir: Option<Seq<char>>, signature: Seq<char>) -> Seq<
    Seq<char>,
> {
    let dir = match runtime_dir {
        Some(d) => d,
        None => "/run/user/1000"@,
    };
    seq![
        dir + "/hypr/"@ + signature + "/.socket.sock"@,
        "/tmp/hypr/"@ + signature + "/.socket.sock"@,
    ]
}

/// The candidate socket paths for the instance `signature`.
pub fn socket_paths(runtime_dir: Option<&str>, signature: &str) -> (v: Vec<String>)
    ensures
        texts(v@) == socket_candidates(
            opt_text(runtime_dir),
            signature@,
        ),
{
    let dir = match runtime_dir {
        Some(d) => d,
        None => "/run/user/1000",
    };
    let mut v: Vec<String> = Vec::new();
    v.push(cat(cat(cat(dir, "/hypr/").as_str(), signature).as_str(), "/.socket.sock"));
    v.push(cat(cat("/tmp/hypr/", signature).as_str(), "/.socket.sock"));
    proof {
        let rd = opt_text(runtime_dir);
        assert(texts(v@) =~= socket_candidates(rd, signature@));
    }
    v
}

/// The first candidate whose entry in `found` is true (entries past the end
/// of either list count as not found).
pub open spec fn first_found(candidates: Seq<Seq<char>>, found: Seq<bool>) -> Option<Seq<char>>
    decreases candidates.len(),
{
    if candidates.len() == 0 || found.len() == 0 {
        None
    } else if found[0] {
        Some(candidates[0])
    } else {
        first_found(candidates.drop_first(), found.drop_first())
    }
}

/// `found` is what asking candidates in order gives when the asking stops
/// at the first that exists: every answer before the last is "absent", and
/// the asking stops early (before all `n` candidates are asked) only at an
/// answer "exists".
pub open spec fn asked_in_order(found: Seq<bool>, n: nat) -> bool {
    &&& found.len() <= n
    &&& forall|i: int| 0 <= i < found.len() - 1 ==> !#[trigger] found[i]
    &&& found.len() < n ==> found.len() > 0 && found[found.len() - 1]
}

/// `f` answered `b` when asked about a text equal to `t`.
pub open spec fn answered<F: Fn(&str) -> bool>(f: F, t: Seq<char>, b: bool) -> bool {
    exists|s: &str| s@ == t && #[trigger] f.ensures((s,), b)
}

/// Asks `is_present` about the candidates in order, stopping at the first for
/// which it answers true, and gives the answers. Each answer is one
/// `is_present` gave for that very candidate.
pub fn ask_in_order<F: Fn(&str) -> bool>(candidates: &Vec<String>, is_present: F) -> (found: Vec<bool>)
    requires
        forall|s: &str| #[trigger] is_present.requires((s,)),
    ensures
        asked_in_order(found@, candidates@.len()),
        forall|k: int|
            0 <= k < found@.len() ==> answered(is_present, candidates@[k]@, #[trigger] found@[k]),
{
    let mut found: Vec<bool> = Vec::new();
    let mut i: usize = 0;
    while i < candidates.len()
        invariant_except_break
            i <= candidates.len(),
            found@.len() == i,
            forall|j: int| 0 <= j < i ==> !#[trigger] found@[j],
        invariant
            forall|s: &str| #[trigger] is_present.requires((s,)),
            forall|k: int|
                0 <= k < found@.len() ==> answered(is_present, candidates@[k]@, #[trigger] found@[k]),
        ensures
            asked_in_order(found@, candidates@.len()),
        decreases candidates.len() - i,
    {
        let p = candidates[i].as_str();
        let answer = is_present(p);
        let ghost before = found@;
        found.push(answer);
        proof {
            assert forall|k: int|
                0 <= k < found@.len() implies answered(is_present, candidates@[k]@, #[trigger] found@[k]) by {
                if k < i {
                    assert(found@[k] == before[k]);
                } else {
                    assert(p@ == candidates@[k]@ && is_present.ensures((p,), found@[k]));
                }
            }
        }
        if answer {
            break;
        }
        i = i + 1;
    }
    found
}

/// Asked in order, no candidate is found exactly when every candidate was
/// asked and all were absent; and a found one is the last asked.
pub proof fn lemma_asked_in_order_result(candidates: Seq<Seq<char>>, found: Seq<bool>)
    requires
        asked_in_order(found, candidates.len()),
    ensures
        first_found(candidates, found) is None <==> (found.len() == candidates.len() && forall|
            i: int,
        | 0 <= i < found.len() ==> !#[trigger] found[i]),
        first_found(candidates, found) matches Some(p) ==> p == candidates[found.len() - 1],
    decreases candidates.len(),
{
    if candidates.len() > 0 && found.len() > 0 {
        if !found[0] {
            let c2 = candidates.drop_first();
            let f2 = found.drop_first();
            assert forall|i: int| 0 <= i < f2.len() - 1 implies !#[trigger] f2[i] by {
                assert(f2[i] == found[i + 1]);
            }
            if f2.len() < c2.len() {
                assert(f2[f2.len() - 1] == found[found.len() - 1]);
            }
            lemma_asked_in_order_result(c2, f2);
            if f2.len() == c2.len() && forall|i: int| 0 <= i < f2.len() ==> !#[trigger] f2[i] {
                assert forall|i: int| 0 <= i < found.len() implies !#[trigger] found[i] by {
                    if i > 0 {
                        assert(found[i] == f2[i - 1]);
                    }
                }
            }
            if found.len() == candidates.len() && forall|i: int|
                0 <= i < found.len() ==> !#[trigger] found[i] {
                assert forall|i: int| 0 <= i < f2.len() implies !#[trigger] f2[i] by {
                    assert(f2[i] == found[i + 1]);
                }
            }
            if first_found(candidates, found) is Some {
                assert(c2[f2.len() - 1] == candidates[found.len() - 1]);
            }
        } else {
            assert(found.len() == 1 || !found[0]);
        }
    } else if candidates.len() == 0 {
        assert(found.len() == 0);
    } else {
        assert(found.len() == 0);
    }
}

/// The first candidate socket that was found on disk, given for each
/// candidate asked so far whether it exists.
pub fn first_found_socket(candidates: &Vec<String>, found: &Vec<bool>) -> (r: Option<String>)
    ensures
        match r {
            Some(p) => first_found(texts(candidates@), found@) == Some(p@),
            None => first_found(texts(candidates@), found@) is None,
        },
{
    let mut i: usize = 0;
    proof {
        assert(texts(candidates@).skip(0) =~= texts(candidates@));
        assert(found@.skip(0) =~= found@);
    }
    while i < candidates.len() && i < found.len()
        invariant
            i <= candidates.len(),
            i <= found.len(),
            first_found(texts(candidates@), found@) == first_found(
                texts(candidates@).skip(i as int),
                found@.skip(i as int),
            ),
        decreases candidates.len() - i,
    {
        if found[i] {
            proof {
                assert(texts(candidates@).skip(i as int)[0] == candidates@[i as int]@);
            }
            return Some(candidates[i].clone());
        }
        proof {
            assert(texts(candidates@).skip(i as int).drop_first() =~= texts(candidates@).skip(i + 1));
            assert(found@.skip(i as int).drop_first() =~= found@.skip(i + 1));
        }
        i = i + 1;
    }
    None
}

/// Hyprland's IPC socket, when this session runs Hyprland on a unix system
/// (`unix`; elsewhere there is no Hyprland and so no socket): `signature` is
/// the instance signature from `HYPRLAND_INSTANCE_SIGNATURE` and
/// `runtime_dir` is `XDG_RUNTIME_DIR`, each when set. The candidates are
/// asked in order whether they exist on disk, stopping at the first that
/// does, and `first_found_socket` picks the answer from what the disk said.
/// What exists is the disk's business, so the contract says that the
/// answer is the first candidate found for some answers of the disk.
pub fn socket_path(unix: bool, signature: Option<&str>, runtime_dir: Option<&str>) -> (r: Option<
    String,
>)
    ensures
        !unix ==> r is None,
        signature is None ==> r is None,
        r matches Some(p) ==> signature matches Some(sig) && socket_candidates(
            opt_text(runtime_dir),
            sig@,
        ).contains(p@),
        unix && signature is Some ==> exists|found: Seq<bool>|
            asked_in_order(found, 2) && #[trigger] first_found(
                socket_candidates(opt_text(runtime_dir), signature->0@),
                found,
            ) == opt_string_text(r),
{
    if !unix {
        return None;
    }
    let sig = match signature {
        Some(s) => s,
        None => return None,
    };
    let candidates = socket_paths(runtime_dir, sig);
    let found = ask_in_order(&candidates, |p: &str| path_exists(&path_of(String::from_str(p))));
    let r = first_found_socket(&candidates, &found);
    proof {
        lemma_first_found_is_candidate(texts(candidates@), found@);
        assert(first_found(texts(candidates@), found@) == opt_string_text(r));
    }
    r
}

/// What `first_found` picks is one of the candidates.
pub proof fn lemma_first_found_is_candidate(candidates: Seq<Seq<char>>, found: Seq<bool>)
    ensures
        first_found(candidates, found) matches Some(p) ==> candidates.contains(p),
    decreases candidates.len(),
{
    if candidates.len() > 0 && found.len() > 0 && !found[0] {
        lemma_first_found_is_candidate(candidates.drop_first(), found.drop_first());
        if let Some(p) = first_found(candidates, found) {
            let j = choose|j: int| 0 <= j < candidates.drop_first().len() && candidates.drop_first()[j] == p;
            assert(candidates[j + 1] == p);
        }
    } else if candidates.len() > 0 && found.len() > 0 {
        assert(candidates[0] == candidates[0]);
    }
}

} // verus!
