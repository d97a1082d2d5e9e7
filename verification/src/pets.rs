//! The pet catalogue: the bundled pets, which ids a custom pet may have,
//! how an imported sprite sheet is checked and named, and how the list the
//! settings window shows is put together.

use vstd::prelude::*;
use vstd::string::StringSliceAdditionalSpecFns;
use std::path::PathBuf;
use crate::order::{lemma_text_order_total, sort_strings, text_order};
use crate::hypr::answered;
use crate::paths::{join_path, path_exists};
use crate::png::{png_dimensions, png_size};
use crate::text::{
    chars_equal, other_than, opt_string_text,
    trimmed, trim, lemma_trimmed_plain, is_white,
    cat, chars_of, opt_text, contains_char, dec, dec_digits, fmt_int, format_u32, is_digit, lead_count,
    lemma_dec, lemma_lead_count, lemma_lead_count_props, slice_chars, str_equal, string_of, strip,
    texts, trail_count, lemma_trail_count,
};

verus! {

/// The ids of the bundled pets, in the order they are listed.
pub open spec fn builtin_ids() -> Seq<Seq<char>> {
    seq!["classic"@, "dog"@, "maia"@, "tora"@, "vaporwave"@]
}

/// The pet used when none is chosen, or the chosen one goes away.
pub open spec fn default_pet() -> Seq<char> {
    "classic"@
}

/// The ids of the bundled pets.
pub fn builtin_pets() -> (v: Vec<&'static str>)
    ensures
        v@.map_values(|s: &str| s@) == builtin_ids(),
{
    let v: Vec<&'static str> = vec!["classic", "dog", "maia", "tora", "vaporwave"];
    proof {
        assert(v@.map_values(|s: &str| s@) =~= builtin_ids());
    }
    v
}

/// Whether `id` names a bundled pet.
pub fn is_builtin(id: &str) -> (b: bool)
    ensures
        b == builtin_ids().contains(id@),
{
    let names = builtin_pets();
    let mut i: usize = 0;
    while i < names.len()
        invariant
            i <= names.len(),
            names@.map_values(|s: &str| s@) == builtin_ids(),
            forall|j: int| 0 <= j < i ==> builtin_ids()[j] != id@,
        decreases names.len() - i,
    {
        if str_equal(names[i], id) {
            proof {
                assert(builtin_ids()[i as int] == names@[i as int]@);
            }
            return true;
        }
        proof {
            assert(builtin_ids()[i as int] == names@[i as int]@);
        }
        i = i + 1;
    }
    false
}

/// `s` holds two dots in a row.
pub open spec fn has_double_dot(s: Seq<char>) -> bool {
    exists|i: int| 0 <= i && i + 1 < s.len() && #[trigger] s[i] == '.' && s[i + 1] == '.'
}

/// `id` cannot climb out of the pets folder or name another folder: it has
/// no `/`, no `\`, no `:` (a drive prefix) and no `..`.
pub open spec fn stays_in_folder(id: Seq<char>) -> bool {
    !id.contains('/') && !id.contains('\\') && !id.contains(':') && !has_double_dot(id)
}

/// An id a custom pet's file may be named by: non-empty, and it stays in
/// the pets folder.
pub open spec fn custom_id_ok(id: Seq<char>) -> bool {
    id.len() > 0 && stays_in_folder(id)
}

fn double_dot(s: &[char]) -> (b: bool)
    ensures
        b == has_double_dot(s@),
{
    if s.len() == 0 {
        return false;
    }
    let mut i: usize = 0;
    while i < s.len() - 1
        invariant
            s.len() > 0,
            i <= s.len(),
            forall|j: int| 0 <= j < i && j + 1 < s.len() ==> !(#[trigger] s@[j] == '.' && s@[j + 1] == '.'),
        decreases s.len() - i,
    {
        if s[i] == '.' && s[i + 1] == '.' {
            return true;
        }
        i = i + 1;
    }
    false
}

/// Whether `id` stays in the pets folder.
pub fn id_stays_in_folder(id: &str) -> (b: bool)
    ensures
        b == stays_in_folder(id@),
{
    let c = chars_of(id);
    !contains_char(c.as_slice(), '/') && !contains_char(c.as_slice(), '\\') && !contains_char(
        c.as_slice(),
        ':',
    ) && !double_dot(c.as_slice())
}

/// The file that holds pet `id`'s sprite sheet.
pub open spec fn sheet_file(id: Seq<char>) -> Seq<char> {
    id + ".png"@
}

/// The file that holds pet `id`'s animation manifest.
pub open spec fn manifest_file(id: Seq<char>) -> Seq<char> {
    id + ".json"@
}

/// The sprite sheet file of a custom pet, when `id` is an acceptable id.
pub fn custom_pet_file(id: &str) -> (r: Option<String>)
    ensures
        match r {
            Some(f) => custom_id_ok(id@) && f@ == sheet_file(id@),
            None => !custom_id_ok(id@),
        },
{
    if id.is_empty() || !id_stays_in_folder(id) {
        None
    } else {
        Some(cat(id, ".png"))
    }
}

/// Pet `id` may have a manifest file: it is not a bundled pet, and it stays
/// in the pets folder.
pub open spec fn manifest_id_ok(id: Seq<char>) -> bool {
    !builtin_ids().contains(id) && stays_in_folder(id)
}

/// The manifest file of pet `id`; `None` for a bundled pet or an id that
/// could reach outside the folder.
pub fn pet_manifest_file(id: &str) -> (r: Option<String>)
    ensures
        match r {
            Some(f) => manifest_id_ok(id@) && f@ == manifest_file(id@),
            None => !manifest_id_ok(id@),
        },
{
    if is_builtin(id) || !id_stays_in_folder(id) {
        None
    } else {
        Some(cat(id, ".json"))
    }
}

/// The image source of a bundled pet, inside the app's assets.
pub open spec fn builtin_src(id: Seq<char>) -> Seq<char> {
    "sprites/oneko-"@ + id + ".png"@
}

/// The image source of bundled pet `id`; `None` when `id` is not bundled.
pub fn builtin_pet_src(id: &str) -> (r: Option<String>)
    ensures
        match r {
            Some(s) => builtin_ids().contains(id@) && s@ == builtin_src(id@),
            None => !builtin_ids().contains(id@),
        },
{
    if is_builtin(id) {
        Some(cat(cat("sprites/oneko-", id).as_str(), ".png"))
    } else {
        None
    }
}

/// A letter or digit in ASCII.
pub open spec fn is_ascii_alnum(c: char) -> bool {
    let n = c as u32;
    is_digit(c) || (65 <= n <= 90) || (97 <= n <= 122)
}

/// The character an id keeps for `c`: itself if it is an ASCII letter or
/// digit, `-` otherwise.
pub open spec fn id_char(c: char) -> char {
    if is_ascii_alnum(c) {
        c
    } else {
        '-'
    }
}

pub open spec fn dash() -> spec_fn(char) -> bool {
    |c: char| c == '-'
}

/// The id base made of a lower-cased file name: every character that is not
/// an ASCII letter or digit becomes `-`, dashes at either end go, and an
/// empty result becomes `pet`.
pub open spec fn id_base_of(lower: Seq<char>) -> Seq<char> {
    let t = strip(lower.map_values(|c: char| id_char(c)), dash());
    if t.len() == 0 {
        "pet"@
    } else {
        t
    }
}

/// What `str::to_lowercase` returns for `s`.
pub uninterp spec fn lowercase(s: Seq<char>) -> Seq<char>;

/// `str::to_lowercase`: the Unicode lower-case form of `s`. Its tables are
/// not written out here; the result is the name `lowercase` applied to `s`.
#[verifier::external_body]
fn to_lowercase(s: &str) -> (r: String)
    ensures
        r@ == lowercase(s@),
{
    s.to_lowercase()
}

/// The id base for a sheet whose file name (without extension) is `stem`,
/// or `pet` when the name is unknown.
pub open spec fn id_base(stem: Option<Seq<char>>) -> Seq<char> {
    match stem {
        Some(s) => id_base_of(lowercase(s)),
        None => "pet"@,
    }
}

/// The id base for an already lower-cased file name.
pub fn sanitize_pet_id(lower: &str) -> (r: String)
    ensures
        r@ == id_base_of(lower@),
{
    let cs = chars_of(lower);
    let mut mapped: Vec<char> = Vec::new();
    let mut i: usize = 0;
    while i < cs.len()
        invariant
            i <= cs.len(),
            mapped@ == cs@.take(i as int).map_values(|c: char| id_char(c)),
        decreases cs.len() - i,
    {
        let c = cs[i];
        let n = c as u32;
        let keep = (48 <= n && n <= 57) || (65 <= n && n <= 90) || (97 <= n && n <= 122);
        mapped.push(if keep { c } else { '-' });
        proof {
            assert(cs@.take(i + 1).map_values(|c: char| id_char(c)) =~= cs@.take(
                i as int,
            ).map_values(|c: char| id_char(c)).push(id_char(c)));
        }
        i = i + 1;
    }
    proof {
        assert(cs@.take(cs.len() as int) =~= cs@);
    }
    let mut a: usize = 0;
    while a < mapped.len() && mapped[a] == '-'
        invariant
            a <= mapped.len(),
            forall|j: int| 0 <= j < a ==> #[trigger] mapped@[j] == '-',
        decreases mapped.len() - a,
    {
        a = a + 1;
    }
    proof {
        assert forall|j: int| 0 <= j < a implies #[trigger] dash()(mapped@[j]) by {}
        lemma_lead_count(mapped@, dash(), a as int);
    }
    let head = slice_chars(mapped.as_slice(), a, mapped.len());
    let mut k: usize = 0;
    while k < head.len() && head[head.len() - 1 - k] == '-'
        invariant
            k <= head.len(),
            forall|j: int| head.len() - k <= j < head.len() ==> #[trigger] head@[j] == '-',
        decreases head.len() - k,
    {
        k = k + 1;
    }
    proof {
        assert forall|j: int| head.len() - k <= j < head.len() implies #[trigger] dash()(head@[j]) by {}
        lemma_trail_count(head@, dash(), k as int);
    }
    let t = slice_chars(head.as_slice(), 0, head.len() - k);
    if t.len() == 0 {
        String::from_str("pet")
    } else {
        string_of(t.as_slice())
    }
}

/// The id base for a sheet named `stem` (its file name without extension),
/// or `pet` when there is none.
pub fn pet_id_base(stem: Option<&str>) -> (r: String)
    ensures
        r@ == id_base(opt_text(stem)),
{
    match stem {
        Some(s) => {
            let lower = to_lowercase(s);
            sanitize_pet_id(lower.as_str())
        },
        None => String::from_str("pet"),
    }
}

/// The `n`-th id tried for a base: the base itself first (`n` below 2), then
/// `base-2`, `base-3`, and so on.
pub open spec fn id_candidate(base: Seq<char>, n: nat) -> Seq<char> {
    if n < 2 {
        base
    } else {
        base + "-"@ + dec(n)
    }
}

/// The id tried for `base` at step `n`.
pub fn pet_id_candidate(base: &str, n: u64) -> (r: String)
    ensures
        r@ == id_candidate(base@, n as nat),
{
    if n < 2 {
        String::from_str(base)
    } else {
        let digits = dec_digits(n);
        cat(cat(base, "-").as_str(), string_of(digits.as_slice()).as_str())
    }
}

/// The disk said that candidate `n` (counted from 1: `base`, `base-2`, ...)
/// already has a sheet: `taken` holds the answers, in order; candidates past
/// its end count as not taken.
pub open spec fn pet_taken(taken: Seq<bool>, n: nat) -> bool {
    1 <= n && n - 1 < taken.len() && taken[n - 1]
}

/// Candidate `n` can be used: it is not a bundled pet and not taken.
pub open spec fn id_free(base: Seq<char>, taken: Seq<bool>, n: nat) -> bool {
    !builtin_ids().contains(id_candidate(base, n)) && !pet_taken(taken, n)
}

/// `id` is the first candidate for `base` that can be used.
pub open spec fn least_free_id(base: Seq<char>, taken: Seq<bool>, id: Seq<char>) -> bool {
    exists|n: nat|
        1 <= n && id == #[trigger] id_candidate(base, n) && id_free(base, taken, n) && forall|
            m: nat,
        | 1 <= m < n ==> !#[trigger] id_free(base, taken, m)
}

/// The id for a sheet whose id base is `base`, given for the candidates
/// `base`, `base-2`, `base-3`, ... in order whether a sheet by that name is
/// already on disk (`taken`; the answer for a bundled pet's name is not
/// looked at). It is the first candidate that is neither a bundled pet nor
/// taken.
pub fn chosen_pet_id(base: &str, taken: &Vec<bool>) -> (r: String)
    requires
        taken.len() + 2 <= usize::MAX,
    ensures
        least_free_id(base@, taken@, r@),
{
    let mut k: usize = 0;
    loop
        invariant
            k <= taken.len() + 1,
            taken.len() + 2 <= usize::MAX,
            forall|m: nat| 1 <= m <= k ==> !#[trigger] id_free(base@, taken@, m),
        decreases taken.len() + 1 - k,
    {
        let n = k as u64 + 1;
        let id = pet_id_candidate(base, n);
        let taken_here = k < taken.len() && taken[k];
        proof {
            assert(taken_here == pet_taken(taken@, n as nat));
        }
        if !is_builtin(id.as_str()) && !taken_here {
            proof {
                assert(id_free(base@, taken@, n as nat));
                assert(id@ == id_candidate(base@, n as nat));
                assert forall|m: nat| 1 <= m < n implies !#[trigger] id_free(base@, taken@, m) by {
                    assert(m <= k);
                }
            }
            return id;
        }
        if k == taken.len() + 1 {
            proof {
                lemma_candidate_not_builtin(base@, n as nat);
                assert(false);
            }
        }
        proof {
            assert(!id_free(base@, taken@, n as nat));
        }
        k = k + 1;
    }
}

/// Asks `sheet_exists` about the sheet file of each candidate for `base`
/// in turn (`base.png`, `base-2.png`, ...), skipping bundled pets' names
/// without asking (their answer is recorded as false), and stops at the
/// first candidate that is free. Each recorded answer is one
/// `sheet_exists` gave for that candidate's sheet file; every candidate
/// before the last is not free, and the last is free unless the list
/// reached its length limit.
pub fn ask_sheets<F: Fn(&str) -> bool>(base: &str, sheet_exists: F) -> (taken: Vec<bool>)
    requires
        forall|s: &str| #[trigger] sheet_exists.requires((s,)),
    ensures
        1 <= taken@.len(),
        taken@.len() + 2 <= usize::MAX,
        forall|k: int|
            0 <= k < taken@.len() ==> if builtin_ids().contains(id_candidate(base@, (k + 1) as nat)) {
                !taken@[k]
            } else {
                answered(sheet_exists, id_candidate(base@, (k + 1) as nat) + ".png"@, #[trigger] taken@[k])
            },
        forall|m: nat| 1 <= m < taken@.len() ==> !#[trigger] id_free(base@, taken@, m),
        id_free(base@, taken@, taken@.len()) || taken@.len() + 2 == usize::MAX,
{
    let mut taken: Vec<bool> = Vec::new();
    let mut k: usize = 0;
    loop
        invariant_except_break
            taken@.len() == k,
            k + 3 <= usize::MAX,
            forall|m: nat| 1 <= m <= taken@.len() ==> !#[trigger] id_free(base@, taken@, m),
        invariant
            forall|s: &str| #[trigger] sheet_exists.requires((s,)),
            forall|j: int|
                0 <= j < taken@.len() ==> if builtin_ids().contains(id_candidate(base@, (j + 1) as nat)) {
                    !taken@[j]
                } else {
                    answered(sheet_exists, sheet_file(id_candidate(base@, (j + 1) as nat)), #[trigger] taken@[j])
                },
            forall|m: nat| 1 <= m < taken@.len() ==> !#[trigger] id_free(base@, taken@, m),
        ensures
            1 <= taken@.len(),
            taken@.len() + 2 <= usize::MAX,
            id_free(base@, taken@, taken@.len()) || taken@.len() + 2 == usize::MAX,
        decreases usize::MAX - k,
    {
        let id = pet_id_candidate(base, k as u64 + 1);
        let ghost before = taken@;
        let builtin = is_builtin(id.as_str());
        let answer = if builtin {
            false
        } else {
            let file = sheet_file_name(id.as_str());
            let a = sheet_exists(file.as_str());
            proof {
                assert(answered(sheet_exists, sheet_file(id@), a));
            }
            a
        };
        taken.push(answer);
        proof {
            assert forall|j: int|
                0 <= j < taken@.len() implies if builtin_ids().contains(
                    id_candidate(base@, (j + 1) as nat),
                ) {
                    !taken@[j]
                } else {
                    answered(sheet_exists, sheet_file(id_candidate(base@, (j + 1) as nat)), #[trigger] taken@[j])
                } by {
                if j < k {
                    assert(taken@[j] == before[j]);
                }
            }
            assert forall|m: nat| 1 <= m <= k implies !#[trigger] id_free(base@, taken@, m) by {
                assert(!id_free(base@, before, m));
                assert(taken@[m - 1] == before[m - 1]);
            }
        }
        if !builtin && !answer {
            proof {
                assert(id_free(base@, taken@, taken@.len()));
            }
            break;
        }
        proof {
            assert(!id_free(base@, taken@, (k + 1) as nat));
        }
        if k + 3 == usize::MAX {
            break;
        }
        k = k + 1;
    }
    taken
}

/// Neither the first nor the last character is a dash.
pub open spec fn dash_free_ends(s: Seq<char>) -> bool {
    s.len() > 0 && s[0] != '-' && s.last() != '-'
}

/// A fresh id for a sheet named `stem` (its file name without extension):
/// the candidates `base`, `base-2`, `base-3`, ... are asked in order whether
/// `pets_dir` already holds a sheet by that name (bundled pets' names are
/// skipped without asking), stopping at the first that is free, and
/// `chosen_pet_id` picks the id from those answers. What is on disk is the
/// disk's business, so the contract says the id is the first free one for
/// some answers of the disk.
pub fn unique_pet_id(pets_dir: &PathBuf, stem: Option<&str>) -> (r: String)
    ensures
        exists|t: Seq<bool>| #[trigger] least_free_id(id_base(opt_text(stem)), t, r@),
        !builtin_ids().contains(r@),
        custom_id_ok(r@),
        id_shaped(r@),
        dash_free_ends(r@),
{
    let base = pet_id_base(stem);
    proof {
        lemma_id_base_shape(opt_text(stem));
    }
    let taken = ask_sheets(base.as_str(), |file: &str| path_exists(&join_path(pets_dir, file)));
    let r = chosen_pet_id(base.as_str(), &taken);
    proof {
        let b = id_base(opt_text(stem));
        let n = choose|n: nat|
            1 <= n && r@ == #[trigger] id_candidate(b, n) && id_free(b, taken@, n) && forall|m: nat|
                1 <= m < n ==> !#[trigger] id_free(b, taken@, m);
        lemma_candidate_shape(b, n);
        lemma_shaped_id_ok(r@);
        lemma_candidate_ends(b, n);
    }
    r
}

/// Every character is an ASCII letter or digit or `-`, and there is one.
pub open spec fn id_shaped(s: Seq<char>) -> bool {
    s.len() > 0 && forall|i: int| 0 <= i < s.len() ==> is_ascii_alnum(#[trigger] s[i]) || s[i]
        == '-'
}

/// An id made of letters, digits and dashes is an acceptable custom id.
pub proof fn lemma_shaped_id_ok(s: Seq<char>)
    requires
        id_shaped(s),
    ensures
        custom_id_ok(s),
{
    assert(('/' as u32) == 47 && ('\\' as u32) == 92 && ('.' as u32) == 46 && ('-' as u32) == 45
        && (':' as u32) == 58);
    assert forall|i: int| 0 <= i < s.len() implies s[i] != '/' && s[i] != '\\' && s[i] != '.'
        && s[i] != ':' by {
        assert(is_ascii_alnum(s[i]) || s[i] == '-');
    }
    if has_double_dot(s) {
        let i = choose|i: int| 0 <= i && i + 1 < s.len() && #[trigger] s[i] == '.' && s[i + 1] == '.';
        assert(s[i] != '.');
    }
}

/// Every id base is made of letters, digits and dashes.
pub proof fn lemma_id_base_shape(stem: Option<Seq<char>>)
    ensures
        id_shaped(id_base(stem)),
        dash_free_ends(id_base(stem)),
{
    reveal_strlit("pet");
    assert(('p' as u32) == 112 && ('e' as u32) == 101 && ('t' as u32) == 116 && ('-' as u32) == 45);
    assert("pet"@ =~= seq!['p', 'e', 't']);
    match stem {
        Some(s) => {
            let l = lowercase(s);
            let m = l.map_values(|c: char| id_char(c));
            let t = strip(m, dash());
            if t.len() > 0 {
                let a = lead_count(m, dash()) as int;
                let h = m.skip(a);
                lemma_lead_count_props(m, dash());
                lemma_trail_count_le(h, dash());
                assert(t == h.take(h.len() - trail_count(h, dash())));
                assert forall|i: int| 0 <= i < t.len() implies is_ascii_alnum(#[trigger] t[i])
                    || t[i] == '-' by {
                    assert(t[i] == h[i]);
                    assert(h[i] == m[i + a]);
                    assert(m[i + a] == id_char(l[i + a]));
                }
                lemma_trail_count_props(h, dash());
                assert(t[0] == m[a]);
                assert(t.last() == h[h.len() - trail_count(h, dash()) - 1]);
            }
        },
        None => {},
    }
}

proof fn lemma_trail_count_props(s: Seq<char>, p: spec_fn(char) -> bool)
    ensures
        trail_count(s, p) <= s.len(),
        trail_count(s, p) < s.len() ==> !p(s[s.len() - 1 - trail_count(s, p)]),
    decreases s.len(),
{
    if s.len() > 0 && p(s.last()) {
        let t = s.drop_last();
        lemma_trail_count_props(t, p);
        if trail_count(s, p) < s.len() {
            assert(s[s.len() - 1 - trail_count(s, p)] == t[t.len() - 1 - trail_count(t, p)]);
        }
    }
}

proof fn lemma_trail_count_le(s: Seq<char>, p: spec_fn(char) -> bool)
    ensures
        trail_count(s, p) <= s.len(),
    decreases s.len(),
{
    if s.len() > 0 && p(s.last()) {
        lemma_trail_count_le(s.drop_last(), p);
    }
}

/// The candidates for an id base keep its shape.
pub proof fn lemma_candidate_shape(base: Seq<char>, n: nat)
    requires
        id_shaped(base),
    ensures
        id_shaped(id_candidate(base, n)),
{
    if n >= 2 {
        lemma_dec(n);
        let c = id_candidate(base, n);
        reveal_strlit("-");
        assert forall|i: int| 0 <= i < c.len() implies is_ascii_alnum(#[trigger] c[i]) || c[i]
            == '-' by {
            if i < base.len() {
                assert(c[i] == base[i]);
            } else if i == base.len() {
                assert(c[i] == '-');
            } else {
                assert(c[i] == dec(n)[i - base.len() - 1]);
                assert(is_digit(dec(n)[i - base.len() - 1]));
            }
        }
    }
}

/// Candidates keep the base's first character, and end in a digit or in the
/// base's last character.
pub proof fn lemma_candidate_ends(base: Seq<char>, n: nat)
    requires
        dash_free_ends(base),
    ensures
        dash_free_ends(id_candidate(base, n)),
{
    if n >= 2 {
        lemma_dec(n);
        let c = id_candidate(base, n);
        assert(c[0] == base[0]);
        assert(c.last() == dec(n).last());
        assert(is_digit(dec(n)[dec(n).len() - 1]));
        assert(('-' as u32) == 45);
    }
}

/// No bundled pet's id has a dash in it, so a numbered candidate is never
/// one of them.
pub proof fn lemma_candidate_not_builtin(base: Seq<char>, n: nat)
    requires
        n >= 2,
    ensures
        !builtin_ids().contains(id_candidate(base, n)),
{
    reveal_strlit("classic");
    reveal_strlit("dog");
    reveal_strlit("maia");
    reveal_strlit("tora");
    reveal_strlit("vaporwave");
    reveal_strlit("-");
    let c = id_candidate(base, n);
    assert(c[base.len() as int] == '-');
    assert("classic"@ =~= seq!['c', 'l', 'a', 's', 's', 'i', 'c']);
    assert("dog"@ =~= seq!['d', 'o', 'g']);
    assert("maia"@ =~= seq!['m', 'a', 'i', 'a']);
    assert("tora"@ =~= seq!['t', 'o', 'r', 'a']);
    assert("vaporwave"@ =~= seq!['v', 'a', 'p', 'o', 'r', 'w', 'a', 'v', 'e']);
    assert forall|j: int| 0 <= j < builtin_ids().len() implies builtin_ids()[j] != c by {
        let b = builtin_ids()[j];
        assert(forall|k: int| 0 <= k < b.len() ==> b[k] != '-');
    }
}


/// The file name of pet `id`'s sprite sheet.
pub fn sheet_file_name(id: &str) -> (r: String)
    ensures
        r@ == sheet_file(id@),
{
    cat(id, ".png")
}

/// The file name of pet `id`'s animation manifest.
pub fn manifest_file_name(id: &str) -> (r: String)
    ensures
        r@ == manifest_file(id@),
{
    cat(id, ".json")
}

/// What importing a sheet with these bytes leads to: its size when it is a
/// PNG whose sides are multiples of 32, at least 256 by 128 and at most 4096
/// by 4096 (an 8 by 4 grid of tiles that is not absurdly large), or the
/// message shown to the user.
pub open spec fn sheet_check(bytes: Seq<u8>) -> Result<(u32, u32), Seq<char>> {
    match png_size(bytes) {
        None => Err("That file isn't a valid PNG."@),
        Some((w, h)) => if w % 32 != 0 || h % 32 != 0 || w < 256 || h < 128 {
            Err(
                "Sprite sheet must be an 8x4 grid of 32px tiles (≥256x128, sizes multiple of 32). Got "@
                    + fmt_int(w as int) + "x"@ + fmt_int(h as int) + "."@,
            )
        } else if w > 4096 || h > 4096 {
            Err(
                "Sprite sheet is too large ("@ + fmt_int(w as int) + "x"@ + fmt_int(h as int)
                    + "); max 4096x4096."@,
            )
        } else {
            Ok((w, h))
        },
    }
}

/// Checks that `bytes` are a usable sprite sheet, and gives its size.
pub fn check_sheet(bytes: &[u8]) -> (r: Result<(u32, u32), String>)
    ensures
        match r {
            Ok(d) => sheet_check(bytes@) == Ok::<(u32, u32), Seq<char>>(d),
            Err(e) => sheet_check(bytes@) == Err::<(u32, u32), Seq<char>>(e@),
        },
{
    let (w, h) = match png_dimensions(bytes) {
        Some(d) => d,
        None => return Err(String::from_str("That file isn't a valid PNG.")),
    };
    if w % 32 != 0 || h % 32 != 0 || w < 256 || h < 128 {
        let m = cat(
            "Sprite sheet must be an 8x4 grid of 32px tiles (≥256x128, sizes multiple of 32). Got ",
            format_u32(w).as_str(),
        );
        let m = cat(cat(cat(m.as_str(), "x").as_str(), format_u32(h).as_str()).as_str(), ".");
        return Err(m);
    }
    if w > 4096 || h > 4096 {
        let m = cat("Sprite sheet is too large (", format_u32(w).as_str());
        let m = cat(
            cat(cat(m.as_str(), "x").as_str(), format_u32(h).as_str()).as_str(),
            "); max 4096x4096.",
        );
        return Err(m);
    }
    Ok((w, h))
}

/// The character of the standard base64 alphabet for the 6-bit value `v`:
/// `A`-`Z`, `a`-`z`, `0`-`9`, `+`, `/`.
pub open spec fn b64_char(v: int) -> char {
    if v < 26 {
        ((65 + v) as u32) as char
    } else if v < 52 {
        ((97 + v - 26) as u32) as char
    } else if v < 62 {
        ((48 + v - 52) as u32) as char
    } else if v == 62 {
        '+'
    } else {
        '/'
    }
}

/// The standard padded base64 encoding of `b`: each group of three bytes
/// becomes four characters of six bits each, and a last group of one or two
/// bytes is filled out with `=`.
pub open spec fn base64_standard(b: Seq<u8>) -> Seq<char>
    decreases b.len(),
{
    if b.len() == 0 {
        seq![]
    } else {
        let x = b[0] as int;
        if b.len() == 1 {
            seq![b64_char(x / 4), b64_char((x % 4) * 16), '=', '=']
        } else {
            let y = b[1] as int;
            if b.len() == 2 {
                seq![b64_char(x / 4), b64_char((x % 4) * 16 + y / 16), b64_char((y % 16) * 4), '=']
            } else {
                let z = b[2] as int;
                seq![
                    b64_char(x / 4),
                    b64_char((x % 4) * 16 + y / 16),
                    b64_char((y % 16) * 4 + z / 64),
                    b64_char(z % 64),
                ] + base64_standard(b.skip(3))
            }
        }
    }
}

/// Length of the padded base64 encoding of `n` bytes: four characters per
/// started group of three bytes.
pub open spec fn base64_len(n: nat) -> nat {
    (n / 3) * 4 + if n % 3 > 0 {
        4nat
    } else {
        0nat
    }
}

/// `base64::engine::general_purpose::STANDARD.encode`: the standard padded
/// base64 text of `bytes` (`base64_standard`). The crate panics when the
/// length of that text does not fit in `usize` (its `encoded_len`), which
/// `requires` rules out.
#[verifier::external_body]
fn encode_base64(bytes: &[u8]) -> (r: String)
    requires
        base64_len(bytes@.len()) <= usize::MAX,
    ensures
        r@ == base64_standard(bytes@),
{
    base64::Engine::encode(&base64::engine::general_purpose::STANDARD, bytes)
}

/// The encoding has four characters per started group of three bytes.
pub proof fn lemma_base64_len(b: Seq<u8>)
    ensures
        base64_standard(b).len() == base64_len(b.len()),
    decreases b.len(),
{
    if b.len() >= 3 {
        lemma_base64_len(b.skip(3));
        assert((b.len() - 3) as nat / 3 == b.len() / 3 - 1);
        assert((b.len() - 3) as nat % 3 == b.len() % 3);
    }
}

/// The `data:` URL through which the page shows a custom sheet.
pub open spec fn png_data_url_text(bytes: Seq<u8>) -> Seq<char> {
    "data:image/png;base64,"@ + base64_standard(bytes)
}

/// A PNG sheet as a `data:` URL an `<img>` can load.
pub fn png_data_url(bytes: &[u8]) -> (r: String)
    requires
        base64_len(bytes@.len()) <= usize::MAX,
    ensures
        r@ == png_data_url_text(bytes@),
        r@.len() == 22 + base64_len(bytes@.len()),
{
    let b64 = encode_base64(bytes);
    proof {
        reveal_strlit("data:image/png;base64,");
        lemma_base64_len(bytes@);
    }
    cat("data:image/png;base64,", b64.as_str())
}

/// Whether `serde_json` reads `bytes` as a JSON document.
pub uninterp spec fn is_json(bytes: Seq<u8>) -> bool;

#[verifier::external_type_specification]
#[verifier::external_body]
pub struct ExJsonValue(serde_json::Value);

/// `serde_json::from_slice::<serde_json::Value>`: the JSON document in
/// `bytes`, when they hold one. What JSON is is the crate's, named `is_json`
/// here; the value itself is opaque.
#[verifier::external_body]
fn parse_json(bytes: &[u8]) -> (r: Option<serde_json::Value>)
    ensures
        r is Some <==> is_json(bytes@),
{
    serde_json::from_slice::<serde_json::Value>(bytes).ok()
}

/// Whether a manifest found next to an imported sheet is copied along: it is
/// when it is valid JSON.
pub fn manifest_is_valid(bytes: &[u8]) -> (b: bool)
    ensures
        b == is_json(bytes@),
{
    parse_json(bytes).is_some()
}

/// The animation manifest of pet `id`, given the text of its manifest file
/// (`None` when it could not be read): nothing for a bundled pet or an id
/// that could reach outside the folder, else the JSON document in the text,
/// if it holds one.
pub fn pet_manifest(id: &str, text: Option<&str>) -> (r: Option<serde_json::Value>)
    ensures
        !manifest_id_ok(id@) ==> r is None,
        manifest_id_ok(id@) ==> match text {
            None => r is None,
            Some(t) => (r is Some <==> is_json(t.spec_bytes())),
        },
{
    if pet_manifest_file(id).is_none() {
        return None;
    }
    match text {
        Some(t) => parse_json(t.as_bytes()),
        None => None,
    }
}

/// A pet the settings window can offer.
#[derive(Clone, Debug)]
pub struct PetInfo {
    /// The id used everywhere: a bundled pet's name, or a custom sheet's file stem.
    pub id: String,
    /// Whether the pet is bundled (true) or imported by the user (false).
    pub builtin: bool,
}

/// A file name split at its last dot, as `Path::file_stem` and
/// `Path::extension` split it: no extension when there is no dot, when the
/// only last dot starts the name, or for `..`.
pub open spec fn split_file_name(name: Seq<char>) -> (Seq<char>, Option<Seq<char>>) {
    let t = trail_count(name, other_than('.'));
    if name == ".."@ || t >= name.len() || t + 1 == name.len() {
        (name, None)
    } else {
        let k = name.len() - 1 - t;
        (name.take(k), Some(name.skip(k + 1)))
    }
}

/// The pet id a file in the pets folder stands for: its stem, when its
/// extension is `png`.
pub open spec fn png_stem_of(name: Seq<char>) -> Option<Seq<char>> {
    let (stem, ext) = split_file_name(name);
    if ext == Some("png"@) {
        Some(stem)
    } else {
        None
    }
}

/// The custom pet id a file named `name` in the pets folder stands for, if
/// it is a `.png` sheet.
pub fn png_stem(name: &str) -> (r: Option<String>)
    ensures
        opt_string_text(r) == png_stem_of(name@),
{
    let cs = chars_of(name);
    let mut t: usize = 0;
    while t < cs.len() && cs[cs.len() - 1 - t] != '.'
        invariant
            t <= cs.len(),
            forall|j: int| cs.len() - t <= j < cs.len() ==> #[trigger] cs@[j] != '.',
        decreases cs.len() - t,
    {
        t = t + 1;
    }
    proof {
        assert forall|j: int| cs.len() - t <= j < cs.len() implies #[trigger] other_than('.')(cs@[j]) by {}
        lemma_trail_count(cs@, other_than('.'), t as int);
    }
    if str_equal(name, "..") || t >= cs.len() || t + 1 == cs.len() {
        return None;
    }
    let k = cs.len() - 1 - t;
    let ext = slice_chars(cs.as_slice(), k + 1, cs.len());
    let png = chars_of("png");
    if chars_equal(ext.as_slice(), png.as_slice()) {
        let stem = slice_chars(cs.as_slice(), 0, k);
        Some(string_of(stem.as_slice()))
    } else {
        None
    }
}

/// The ids of a list of pets.
pub open spec fn pet_ids(v: Seq<PetInfo>) -> Seq<Seq<char>> {
    v.map_values(|p: PetInfo| p.id@)
}

/// The list of pets: the bundled ones in their order, then the custom ones
/// (the stems of the sheets in the pets folder) sorted by text order.
pub open spec fn pet_list_ids(custom: Seq<Seq<char>>) -> Seq<Seq<char>> {
    builtin_ids() + custom.sort_by(text_order())
}

/// The pets to offer, given the custom sheets' stems.
pub fn list_pets(custom: Vec<String>) -> (r: Vec<PetInfo>)
    ensures
        pet_ids(r@) == pet_list_ids(texts(custom@)),
        forall|i: int| 0 <= i < r@.len() ==> (#[trigger] r@[i]).builtin == (i < builtin_ids().len()),
{
    let names = builtin_pets();
    let mut r: Vec<PetInfo> = Vec::new();
    let mut i: usize = 0;
    while i < names.len()
        invariant
            i <= names.len(),
            names@.map_values(|s: &str| s@) == builtin_ids(),
            pet_ids(r@) == builtin_ids().take(i as int),
            forall|j: int| 0 <= j < r@.len() ==> (#[trigger] r@[j]).builtin,
        decreases names.len() - i,
    {
        let ghost before = r@;
        let info = PetInfo { id: String::from_str(names[i]), builtin: true };
        r.push(info);
        proof {
            assert(builtin_ids()[i as int] == names@[i as int]@);
            assert(pet_ids(r@) =~= pet_ids(before).push(info.id@));
            assert(builtin_ids().take(i + 1) =~= builtin_ids().take(i as int).push(builtin_ids()[i as int]));
            assert(pet_ids(r@) =~= builtin_ids().take(i + 1));
        }
        i = i + 1;
    }
    proof {
        assert(builtin_ids().take(5) =~= builtin_ids());
    }
    let sorted = sort_strings(custom);
    let mut j: usize = 0;
    while j < sorted.len()
        invariant
            j <= sorted.len(),
            r@.len() == 5 + j,
            pet_ids(r@) == builtin_ids() + texts(sorted@).take(j as int),
            forall|k: int| 0 <= k < r@.len() ==> (#[trigger] r@[k]).builtin == (k < 5),
        decreases sorted.len() - j,
    {
        let ghost before = r@;
        let info = PetInfo { id: sorted[j].clone(), builtin: false };
        r.push(info);
        proof {
            assert(pet_ids(r@) =~= pet_ids(before).push(info.id@));
            assert(info.id@ == texts(sorted@)[j as int]);
            assert(texts(sorted@).take(j + 1) =~= texts(sorted@).take(j as int).push(texts(sorted@)[j as int]));
            assert(pet_ids(r@) =~= builtin_ids() + texts(sorted@).take(j + 1));
        }
        j = j + 1;
    }
    proof {
        assert(texts(sorted@).take(sorted.len() as int) =~= texts(sorted@));
    }
    r
}

/// Why pet `id` cannot be deleted, if it cannot: bundled pets stay, and an
/// id that is empty or reaches outside the folder is refused.
pub open spec fn delete_refusal(id: Seq<char>) -> Option<Seq<char>> {
    if builtin_ids().contains(id) {
        Some("Built-in pets can't be deleted."@)
    } else if !custom_id_ok(id) {
        Some("invalid pet id"@)
    } else {
        None
    }
}

/// The files (in the pets folder) of the sheet and the manifest to remove
/// when deleting custom pet `id`, or the message when it cannot be deleted.
pub fn pet_files_to_delete(id: &str) -> (r: Result<(String, String), String>)
    ensures
        match r {
            Ok((sheet, manifest)) => delete_refusal(id@) is None && sheet@ == sheet_file(id@)
                && manifest@ == manifest_file(id@),
            Err(e) => delete_refusal(id@) == Some(e@),
        },
{
    if is_builtin(id) {
        return Err(String::from_str("Built-in pets can't be deleted."));
    }
    let sheet = match custom_pet_file(id) {
        Some(f) => f,
        None => return Err(String::from_str("invalid pet id")),
    };
    Ok((sheet, manifest_file_name(id)))
}

/// The pet to switch to after deleting `deleted` while `selected` is chosen:
/// the default pet when the chosen one is the one deleted, else no change.
pub fn pet_after_delete(selected: &str, deleted: &str) -> (r: Option<String>)
    ensures
        match r {
            Some(p) => selected@ == deleted@ && p@ == default_pet(),
            None => selected@ != deleted@,
        },
{
    if str_equal(selected, deleted) {
        Some(String::from_str("classic"))
    } else {
        None
    }
}

/// The pet a stored configuration ends up with: a name that is empty or
/// only white space becomes the default pet.
pub open spec fn normalized_pet(pet: Seq<char>) -> Seq<char> {
    if trimmed(pet).len() == 0 {
        default_pet()
    } else {
        pet
    }
}

/// The pet name of a loaded or saved configuration, made usable.
pub fn normalize_pet(pet: &str) -> (r: String)
    ensures
        r@ == normalized_pet(pet@),
{
    let c = chars_of(pet);
    if trim(c.as_slice()).len() == 0 {
        String::from_str("classic")
    } else {
        String::from_str(pet)
    }
}


/// A sheet that passes the check is a PNG whose sides are multiples of 32,
/// at least 256 by 128 and at most 4096 by 4096, and the size given is the
/// one in its header.
pub proof fn lemma_accepted_sheet(bytes: Seq<u8>)
    requires
        sheet_check(bytes) is Ok,
    ensures
        ({
            let (w, h) = sheet_check(bytes)->Ok_0;
            &&& png_size(bytes) == Some((w, h))
            &&& w % 32 == 0 && h % 32 == 0
            &&& 256 <= w <= 4096
            &&& 128 <= h <= 4096
        }),
{
}

/// Every PNG whose sides are multiples of 32, at least 256 by 128 and at
/// most 4096 by 4096, is accepted, with the size in its header.
pub proof fn lemma_valid_sheet_accepted(bytes: Seq<u8>, w: u32, h: u32)
    requires
        png_size(bytes) == Some((w, h)),
        w % 32 == 0,
        h % 32 == 0,
        256 <= w <= 4096,
        128 <= h <= 4096,
    ensures
        sheet_check(bytes) == Ok::<(u32, u32), Seq<char>>((w, h)),
{
}

/// An ASCII lower-case letter or digit, by code point.
pub open spec fn is_lower_alnum_code(c: char) -> bool {
    let n = c as u32;
    (48 <= n <= 57) || (97 <= n <= 122)
}

/// An ASCII letter or digit, by code point.
pub open spec fn is_alnum_code(c: char) -> bool {
    let n = c as u32;
    (48 <= n <= 57) || (65 <= n <= 90) || (97 <= n <= 122)
}

/// A lower-cased file name made only of ASCII lower-case letters and digits
/// is its own id base.
pub proof fn lemma_plain_name_is_own_base(lower: Seq<char>)
    requires
        lower.len() > 0,
        forall|i: int| 0 <= i < lower.len() ==> is_lower_alnum_code(#[trigger] lower[i]),
    ensures
        id_base_of(lower) == lower,
{
    assert(('-' as u32) == 45);
    let m = lower.map_values(|c: char| id_char(c));
    assert(m =~= lower) by {
        assert forall|i: int| 0 <= i < lower.len() implies m[i] == lower[i] by {
            assert(is_lower_alnum_code(lower[i]));
        }
    }
    lemma_lead_count(m, dash(), 0);
    assert(m.skip(0) =~= m);
    lemma_trail_count(m, dash(), 0);
    assert(m.take(m.len() as int) =~= m);
}

/// Every ASCII letter and digit of the lower-cased file name is kept in the
/// id base, in its place among the characters kept.
pub proof fn lemma_base_keeps_letters_and_digits(lower: Seq<char>, i: int)
    requires
        0 <= i < lower.len(),
        is_alnum_code(lower[i]),
    ensures
        ({
            let m = lower.map_values(|c: char| id_char(c));
            let a = lead_count(m, dash()) as int;
            &&& 0 <= i - a < id_base_of(lower).len()
            &&& id_base_of(lower)[i - a] == lower[i]
        }),
{
    assert(('-' as u32) == 45);
    let m = lower.map_values(|c: char| id_char(c));
    assert(m[i] == lower[i]);
    lemma_lead_count_props(m, dash());
    let a = lead_count(m, dash()) as int;
    if i < a {
        assert(dash()(m[i]));
    }
    let h = m.skip(a);
    lemma_trail_count_props(h, dash());
    let tr = trail_count(h, dash()) as int;
    assert(h[i - a] == m[i]);
    if i - a >= h.len() - tr {
        lemma_trail_tail_all(h, dash(), i - a);
    }
    let t = strip(m, dash());
    assert(t == h.take(h.len() - tr));
    assert(t[i - a] == lower[i]);
}

proof fn lemma_trail_tail_all(s: Seq<char>, p: spec_fn(char) -> bool, j: int)
    requires
        0 <= j < s.len(),
        j >= s.len() - trail_count(s, p),
    ensures
        p(s[j]),
    decreases s.len(),
{
    if s.len() > 0 && p(s.last()) {
        if j < s.len() - 1 {
            let t = s.drop_last();
            assert(t[j] == s[j]);
            lemma_trail_tail_all(t, p, j);
        }
    }
}

/// The answers that asking gives lead `chosen_pet_id` to the last candidate
/// asked: when every candidate before it was not free and it is, it is the
/// id chosen.
pub proof fn lemma_last_asked_is_chosen(base: Seq<char>, taken: Seq<bool>)
    requires
        taken.len() >= 1,
        forall|m: nat| 1 <= m < taken.len() ==> !#[trigger] id_free(base, taken, m),
        id_free(base, taken, taken.len()),
    ensures
        least_free_id(base, taken, id_candidate(base, taken.len())),
{
    assert(id_candidate(base, taken.len()) == id_candidate(base, taken.len()));
}

/// Every id that importing can give a sheet is one that deleting accepts:
/// an imported pet can always be removed again.
pub proof fn lemma_imported_pet_deletable(stem: Option<Seq<char>>, n: nat)
    requires
        !builtin_ids().contains(id_candidate(id_base(stem), n)),
    ensures
        delete_refusal(id_candidate(id_base(stem), n)) is None,
        custom_id_ok(id_candidate(id_base(stem), n)),
{
    lemma_id_base_shape(stem);
    lemma_candidate_shape(id_base(stem), n);
    lemma_shaped_id_ok(id_candidate(id_base(stem), n));
}

/// The manifest copied in with an imported sheet sits where the pet's
/// manifest is later looked up: for every id importing can give, the lookup
/// is allowed and names the same file.
pub proof fn lemma_imported_manifest_found(stem: Option<Seq<char>>, n: nat)
    requires
        !builtin_ids().contains(id_candidate(id_base(stem), n)),
    ensures
        manifest_id_ok(id_candidate(id_base(stem), n)),
{
    lemma_imported_pet_deletable(stem, n);
}

/// A normalized pet name is never blank, and normalizing it again changes
/// nothing.
pub proof fn lemma_normalized_pet(pet: Seq<char>)
    ensures
        trimmed(normalized_pet(pet)).len() > 0,
        normalized_pet(normalized_pet(pet)) == normalized_pet(pet),
{
    reveal_strlit("classic");
    let d = default_pet();
    assert(d =~= seq!['c', 'l', 'a', 's', 's', 'i', 'c']);
    assert(!is_white(d[0]) && !is_white(d.last())) by {
        assert(('c' as u32) == 99);
    }
    lemma_trimmed_plain(d);
}

/// The pet list offers every bundled pet and every custom sheet, and nothing
/// else.
pub proof fn lemma_pet_list_complete(custom: Seq<Seq<char>>, id: Seq<char>)
    ensures
        pet_list_ids(custom).contains(id) <==> (builtin_ids().contains(id) || custom.contains(id)),
        pet_list_ids(custom).len() == builtin_ids().len() + custom.len(),
{
    broadcast use vstd::seq_lib::group_to_multiset_ensures;

    lemma_text_order_total();
    custom.lemma_sort_by_ensures(text_order());
    let sorted = custom.sort_by(text_order());
    assert(sorted.to_multiset().len() == custom.to_multiset().len());
    assert(sorted.contains(id) <==> custom.contains(id)) by {
        assert(sorted.to_multiset().count(id) == custom.to_multiset().count(id));
    }
    let l = pet_list_ids(custom);
    if builtin_ids().contains(id) {
        let i = choose|i: int| 0 <= i < builtin_ids().len() && builtin_ids()[i] == id;
        assert(l[i] == id);
    } else if sorted.contains(id) {
        let i = choose|i: int| 0 <= i < sorted.len() && sorted[i] == id;
        assert(l[5 + i] == id);
    }
    if l.contains(id) {
        let i = choose|i: int| 0 <= i < l.len() && l[i] == id;
        if i < 5 {
            assert(builtin_ids()[i] == id);
        } else {
            assert(sorted[i - 5] == id);
        }
    }
}

} // verus!
