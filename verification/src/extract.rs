//! The extractor: scans raw markup for day records.
//!
//! Two passes over the text, mirroring the two patterns of the source format:
//!
//! 1. the literal-count pass finds `data-date="YYYY-MM-DD"`, then (within the
//!    same element, i.e. before any further text once the opening tag closes
//!    with `>`) tooltip text of the form `N contribution...` or the words
//!    `No contributions`, and records a literal count for that date;
//! 2. the level pass finds `data-date="YYYY-MM-DD"` followed, inside the same
//!    element (no `>` may intervene), by `data-level="N"`, and emits one
//!    day record per such pairing.
//!
//! Matches never overlap: after a full match the scan resumes at its end, as
//! a leftmost-match text scanner does. The intervening-text bounds (`>` for
//! pass 2, `<` for the tooltip text) keep a match from spilling across an
//! element boundary.
use vstd::prelude::*;

use crate::chars::{char_digit_val, char_is_digit, digit_val, is_digit, to_char_vec};
use crate::dates::{date_key, is_date_token};
use crate::types::{ContributionDay, DayView, ParseError};

verus! {

/// `data-date="YYYY-MM-DD"` at position `i` (22 characters).
pub open spec fn date_attr_at(s: Seq<char>, i: int) -> bool {
    &&& 0 <= i
    &&& i + 22 <= s.len()
    &&& s[i] == 'd'
    &&& s[i + 1] == 'a'
    &&& s[i + 2] == 't'
    &&& s[i + 3] == 'a'
    &&& s[i + 4] == '-'
    &&& s[i + 5] == 'd'
    &&& s[i + 6] == 'a'
    &&& s[i + 7] == 't'
    &&& s[i + 8] == 'e'
    &&& s[i + 9] == '='
    &&& s[i + 10] == '"'
    &&& is_digit(s[i + 11])
    &&& is_digit(s[i + 12])
    &&& is_digit(s[i + 13])
    &&& is_digit(s[i + 14])
    &&& s[i + 15] == '-'
    &&& is_digit(s[i + 16])
    &&& is_digit(s[i + 17])
    &&& s[i + 18] == '-'
    &&& is_digit(s[i + 19])
    &&& is_digit(s[i + 20])
    &&& s[i + 21] == '"'
}

/// The date token of a date attribute at `i`.
pub open spec fn date_token_at(s: Seq<char>, i: int) -> Seq<char> {
    s.subrange(i + 11, i + 21)
}

/// `data-level="N"` at position `m` (14 characters), `N` one digit.
pub open spec fn level_attr_at(s: Seq<char>, m: int) -> bool {
    &&& 0 <= m
    &&& m + 14 <= s.len()
    &&& s[m] == 'd'
    &&& s[m + 1] == 'a'
    &&& s[m + 2] == 't'
    &&& s[m + 3] == 'a'
    &&& s[m + 4] == '-'
    &&& s[m + 5] == 'l'
    &&& s[m + 6] == 'e'
    &&& s[m + 7] == 'v'
    &&& s[m + 8] == 'e'
    &&& s[m + 9] == 'l'
    &&& s[m + 10] == '='
    &&& s[m + 11] == '"'
    &&& is_digit(s[m + 12])
    &&& s[m + 13] == '"'
}

/// The word `contribution` at position `w` (12 characters).
pub open spec fn contribution_at(s: Seq<char>, w: int) -> bool {
    &&& 0 <= w
    &&& w + 12 <= s.len()
    &&& s[w] == 'c'
    &&& s[w + 1] == 'o'
    &&& s[w + 2] == 'n'
    &&& s[w + 3] == 't'
    &&& s[w + 4] == 'r'
    &&& s[w + 5] == 'i'
    &&& s[w + 6] == 'b'
    &&& s[w + 7] == 'u'
    &&& s[w + 8] == 't'
    &&& s[w + 9] == 'i'
    &&& s[w + 10] == 'o'
    &&& s[w + 11] == 'n'
}

/// The words `No contributions` at position `p` (16 characters).
pub open spec fn no_contributions_at(s: Seq<char>, p: int) -> bool {
    &&& 0 <= p
    &&& p + 16 <= s.len()
    &&& s[p] == 'N'
    &&& s[p + 1] == 'o'
    &&& s[p + 2] == ' '
    &&& s[p + 3] == 'c'
    &&& s[p + 4] == 'o'
    &&& s[p + 5] == 'n'
    &&& s[p + 6] == 't'
    &&& s[p + 7] == 'r'
    &&& s[p + 8] == 'i'
    &&& s[p + 9] == 'b'
    &&& s[p + 10] == 'u'
    &&& s[p + 11] == 't'
    &&& s[p + 12] == 'i'
    &&& s[p + 13] == 'o'
    &&& s[p + 14] == 'n'
    &&& s[p + 15] == 's'
}

/// Whitespace between the digits and the word `contribution`.
pub open spec fn is_space(c: char) -> bool {
    c == ' ' || c == '\t' || c == '\n' || c == '\r' || c == '\u{b}' || c == '\u{c}'
}

/// First position at or after `j` whose character is not a digit.
pub open spec fn digits_end(s: Seq<char>, j: int) -> int
    decreases s.len() - j,
{
    if 0 <= j < s.len() && is_digit(s[j]) {
        digits_end(s, j + 1)
    } else {
        j
    }
}

/// First position at or after `j` whose character is not whitespace.
pub open spec fn spaces_end(s: Seq<char>, j: int) -> int
    decreases s.len() - j,
{
    if 0 <= j < s.len() && is_space(s[j]) {
        spaces_end(s, j + 1)
    } else {
        j
    }
}

/// Numeric value of the digit characters `s[j..e)`.
pub open spec fn digits_value(s: Seq<char>, j: int, e: int) -> int
    decreases e - j,
{
    if e <= j {
        0
    } else {
        digits_value(s, j, e - 1) * 10 + digit_val(s[e - 1])
    }
}

/// Earliest `data-level="N"` at or after `j` that is reachable without
/// crossing a `>` (the in-element bound of pass 2).
pub open spec fn find_level(s: Seq<char>, j: int) -> Option<int>
    decreases s.len() - j,
{
    if j >= s.len() {
        None
    } else if level_attr_at(s, j) {
        Some(j)
    } else if s[j] == '>' {
        None
    } else {
        find_level(s, j + 1)
    }
}

/// Earliest `>` at or after `j`.
pub open spec fn find_gt(s: Seq<char>, j: int) -> Option<int>
    decreases s.len() - j,
{
    if j >= s.len() {
        None
    } else if s[j] == '>' {
        Some(j)
    } else {
        find_gt(s, j + 1)
    }
}

/// A literal count at `q`: a digit run, then whitespace, then `contribution`.
pub open spec fn count_text_at(s: Seq<char>, q: int) -> bool {
    &&& 0 <= q < s.len()
    &&& is_digit(s[q])
    &&& {
        let e = digits_end(s, q);
        let w = spaces_end(s, e);
        w > e && contribution_at(s, w)
    }
}

/// Earliest literal count at or after `q` that is reachable without crossing
/// a `<` (the tooltip text may not leave the element).
pub open spec fn find_count_text(s: Seq<char>, q: int) -> Option<int>
    decreases s.len() - q,
{
    if q >= s.len() {
        None
    } else if count_text_at(s, q) {
        Some(q)
    } else if s[q] == '<' {
        None
    } else {
        find_count_text(s, q + 1)
    }
}

pub proof fn lemma_find_level_bounds(s: Seq<char>, j: int)
    requires
        find_level(s, j) is Some,
    ensures
        j <= find_level(s, j)->0,
        level_attr_at(s, find_level(s, j)->0),
    decreases s.len() - j,
{
    if j >= s.len() || level_attr_at(s, j) || s[j] == '>' {
    } else {
        lemma_find_level_bounds(s, j + 1);
    }
}

pub proof fn lemma_find_gt_bounds(s: Seq<char>, j: int)
    requires
        find_gt(s, j) is Some,
    ensures
        j <= find_gt(s, j)->0 < s.len(),
        s[find_gt(s, j)->0] == '>',
    decreases s.len() - j,
{
    if j >= s.len() || s[j] == '>' {
    } else {
        lemma_find_gt_bounds(s, j + 1);
    }
}

pub proof fn lemma_find_count_text_bounds(s: Seq<char>, q: int)
    requires
        find_count_text(s, q) is Some,
    ensures
        q <= find_count_text(s, q)->0,
        count_text_at(s, find_count_text(s, q)->0),
    decreases s.len() - q,
{
    if q >= s.len() || count_text_at(s, q) || s[q] == '<' {
    } else {
        lemma_find_count_text_bounds(s, q + 1);
    }
}

pub proof fn lemma_digits_end_bounds(s: Seq<char>, j: int)
    ensures
        j <= digits_end(s, j),
        j < s.len() && is_digit(s[j]) ==> digits_end(s, j) <= s.len(),
    decreases s.len() - j,
{
    if 0 <= j < s.len() && is_digit(s[j]) {
        lemma_digits_end_bounds(s, j + 1);
    }
}

pub proof fn lemma_spaces_end_bounds(s: Seq<char>, j: int)
    ensures
        j <= spaces_end(s, j),
        j < s.len() && is_space(s[j]) ==> spaces_end(s, j) <= s.len(),
    decreases s.len() - j,
{
    if 0 <= j < s.len() && is_space(s[j]) {
        lemma_spaces_end_bounds(s, j + 1);
    }
}

/// A full match of pass 2 at `i`: a date attribute with a level attribute in
/// reach inside the same element.
pub open spec fn dl_found(s: Seq<char>, i: int) -> bool {
    date_attr_at(s, i) && find_level(s, i + 22) is Some
}

/// Where the scan resumes after a pass-2 match at `i`: the end of the level
/// attribute.
pub open spec fn dl_resume(s: Seq<char>, i: int) -> int {
    find_level(s, i + 22)->0 + 14
}

/// The level character of a pass-2 match at `i`.
pub open spec fn dl_level(s: Seq<char>, i: int) -> char {
    s[find_level(s, i + 22)->0 + 12]
}

/// Pass 2 from position `i` on: every date/level pairing, in text order.
pub open spec fn dl_scan(s: Seq<char>, i: int) -> Seq<(Seq<char>, char)>
    decreases s.len() - i,
    when i >= 0
    via dl_scan_decreases
{
    if i >= s.len() {
        Seq::empty()
    } else if dl_found(s, i) {
        seq![(date_token_at(s, i), dl_level(s, i))] + dl_scan(s, dl_resume(s, i))
    } else {
        dl_scan(s, i + 1)
    }
}

#[via_fn]
proof fn dl_scan_decreases(s: Seq<char>, i: int) {
    if i < s.len() && dl_found(s, i) {
        lemma_find_level_bounds(s, i + 22);
    }
}

/// All date/level pairings of the text, in order.
pub open spec fn level_pairs(s: Seq<char>) -> Seq<(Seq<char>, char)> {
    dl_scan(s, 0)
}

/// A full match of pass 1 at `i`: a date attribute whose element closes with
/// `>` and is followed by tooltip text holding a literal count, or the words
/// `No contributions`.
pub open spec fn cnt_found(s: Seq<char>, i: int) -> bool {
    &&& date_attr_at(s, i)
    &&& find_gt(s, i + 22) is Some
    &&& {
        let g = find_gt(s, i + 22)->0;
        find_count_text(s, g + 1) is Some || no_contributions_at(s, g + 1)
    }
}

/// The literal count of a pass-1 match at `i`; a digit run too large for the
/// count field reads as 0, as does `No contributions`.
pub open spec fn cnt_value(s: Seq<char>, i: int) -> u32 {
    let g = find_gt(s, i + 22)->0;
    if find_count_text(s, g + 1) is Some {
        let q = find_count_text(s, g + 1)->0;
        let val = digits_value(s, q, digits_end(s, q));
        if val <= u32::MAX {
            val as u32
        } else {
            0
        }
    } else {
        0
    }
}

/// Where the scan resumes after a pass-1 match at `i`: the end of the word
/// `contribution`, or of the words `No contributions`.
pub open spec fn cnt_resume(s: Seq<char>, i: int) -> int {
    let g = find_gt(s, i + 22)->0;
    if find_count_text(s, g + 1) is Some {
        let q = find_count_text(s, g + 1)->0;
        spaces_end(s, digits_end(s, q)) + 12
    } else {
        g + 17
    }
}

/// Pass 1 from position `i` on: every literal-count entry, in text order.
pub open spec fn cnt_scan(s: Seq<char>, i: int) -> Seq<(Seq<char>, u32)>
    decreases s.len() - i,
    when i >= 0
    via cnt_scan_decreases
{
    if i >= s.len() {
        Seq::empty()
    } else if cnt_found(s, i) {
        seq![(date_token_at(s, i), cnt_value(s, i))] + cnt_scan(s, cnt_resume(s, i))
    } else {
        cnt_scan(s, i + 1)
    }
}

#[via_fn]
proof fn cnt_scan_decreases(s: Seq<char>, i: int) {
    if i < s.len() && cnt_found(s, i) {
        lemma_cnt_resume_bounds(s, i);
    }
}

pub proof fn lemma_cnt_resume_bounds(s: Seq<char>, i: int)
    requires
        cnt_found(s, i),
    ensures
        i < cnt_resume(s, i) <= s.len(),
{
    lemma_find_gt_bounds(s, i + 22);
    let g = find_gt(s, i + 22)->0;
    if find_count_text(s, g + 1) is Some {
        lemma_find_count_text_bounds(s, g + 1);
        let q = find_count_text(s, g + 1)->0;
        lemma_digits_end_bounds(s, q);
        lemma_spaces_end_bounds(s, digits_end(s, q));
    }
}

/// All literal-count entries of the text, in order.
pub open spec fn count_entries(s: Seq<char>) -> Seq<(Seq<char>, u32)> {
    cnt_scan(s, 0)
}

/// The last literal count recorded for a date (later entries win).
pub open spec fn lookup_count(entries: Seq<(Seq<char>, u32)>, date: Seq<char>) -> Option<u32>
    decreases entries.len(),
{
    if entries.len() == 0 {
        None
    } else if entries.last().0 == date {
        Some(entries.last().1)
    } else {
        lookup_count(entries.drop_last(), date)
    }
}

/// The last level recorded for a date (later pairings win).
pub open spec fn last_level(pairs: Seq<(Seq<char>, char)>, date: Seq<char>) -> Option<char>
    decreases pairs.len(),
{
    if pairs.len() == 0 {
        None
    } else if pairs.last().0 == date {
        Some(pairs.last().1)
    } else {
        last_level(pairs.drop_last(), date)
    }
}

/// The count a record for `date` carries, given its level: the literal count
/// when pass 1 recorded one, the level's estimate otherwise.
pub open spec fn resolved_count(s: Seq<char>, date: Seq<char>, level: u8) -> u32 {
    match lookup_count(count_entries(s), date) {
        Some(c) => c,
        None => crate::spec_estimate(level),
    }
}

/// What it means for one day record to be extracted from the text `s`: its
/// date is a well-shaped token paired by pass 2, its level is the last level
/// pass 2 paired with that date, and its count resolves per the precedence
/// rule (literal count over estimate).
pub open spec fn extracted_day(s: Seq<char>, d: DayView) -> bool {
    &&& is_date_token(d.date)
    &&& last_level(level_pairs(s), d.date) is Some
    &&& d.level as int == digit_val(last_level(level_pairs(s), d.date)->0)
    &&& d.count == resolved_count(s, d.date, d.level)
}

// ---------------------------------------------------------------------------
// Executable scanners, each proved equal to its specification above.
// ---------------------------------------------------------------------------
/// Tests for `data-date="YYYY-MM-DD"` at `i`.
fn date_attr_check(v: &Vec<char>, i: usize) -> (b: bool)
    ensures
        b == date_attr_at(v@, i as int),
{
    if v.len() < 22 || i > v.len() - 22 {
        return false;
    }
    v[i] == 'd' && v[i + 1] == 'a' && v[i + 2] == 't' && v[i + 3] == 'a' && v[i + 4] == '-' && v[i
        + 5] == 'd' && v[i + 6] == 'a' && v[i + 7] == 't' && v[i + 8] == 'e' && v[i + 9] == '=' && v[i
        + 10] == '"' && char_is_digit(v[i + 11]) && char_is_digit(v[i + 12]) && char_is_digit(
        v[i + 13],
    ) && char_is_digit(v[i + 14]) && v[i + 15] == '-' && char_is_digit(v[i + 16]) && char_is_digit(
        v[i + 17],
    ) && v[i + 18] == '-' && char_is_digit(v[i + 19]) && char_is_digit(v[i + 20]) && v[i + 21] == '"'
}

/// Tests for `data-level="N"` at `m`.
fn level_attr_check(v: &Vec<char>, m: usize) -> (b: bool)
    ensures
        b == level_attr_at(v@, m as int),
{
    if v.len() < 14 || m > v.len() - 14 {
        return false;
    }
    v[m] == 'd' && v[m + 1] == 'a' && v[m + 2] == 't' && v[m + 3] == 'a' && v[m + 4] == '-' && v[m
        + 5] == 'l' && v[m + 6] == 'e' && v[m + 7] == 'v' && v[m + 8] == 'e' && v[m + 9] == 'l' && v[m
        + 10] == '=' && v[m + 11] == '"' && char_is_digit(v[m + 12]) && v[m + 13] == '"'
}

/// Tests for the word `contribution` at `w`.
fn contribution_check(v: &Vec<char>, w: usize) -> (b: bool)
    ensures
        b == contribution_at(v@, w as int),
{
    if v.len() < 12 || w > v.len() - 12 {
        return false;
    }
    v[w] == 'c' && v[w + 1] == 'o' && v[w + 2] == 'n' && v[w + 3] == 't' && v[w + 4] == 'r' && v[w
        + 5] == 'i' && v[w + 6] == 'b' && v[w + 7] == 'u' && v[w + 8] == 't' && v[w + 9] == 'i' && v[w
        + 10] == 'o' && v[w + 11] == 'n'
}

/// Tests for the words `No contributions` at `p`.
fn no_contributions_check(v: &Vec<char>, p: usize) -> (b: bool)
    ensures
        b == no_contributions_at(v@, p as int),
{
    if v.len() < 16 || p > v.len() - 16 {
        return false;
    }
    v[p] == 'N' && v[p + 1] == 'o' && v[p + 2] == ' ' && v[p + 3] == 'c' && v[p + 4] == 'o' && v[p
        + 5] == 'n' && v[p + 6] == 't' && v[p + 7] == 'r' && v[p + 8] == 'i' && v[p + 9] == 'b' && v[p
        + 10] == 'u' && v[p + 11] == 't' && v[p + 12] == 'i' && v[p + 13] == 'o' && v[p + 14] == 'n'
        && v[p + 15] == 's'
}

/// Executable whitespace test.
fn char_is_space(c: char) -> (b: bool)
    ensures
        b == is_space(c),
{
    c == ' ' || c == '\t' || c == '\n' || c == '\r' || c == '\u{b}' || c == '\u{c}'
}

/// Finds the earliest level attribute reachable from `j` inside the element.
#[verifier::loop_isolation(false)]
fn find_level_exec(v: &Vec<char>, j: usize) -> (r: Option<usize>)
    ensures
        match r {
            Some(m) => find_level(v@, j as int) == Some(m as int),
            None => find_level(v@, j as int) is None,
        },
{
    let mut k = j;
    loop
        invariant
            j <= k,
            find_level(v@, j as int) == find_level(v@, k as int),
        decreases v@.len() - k as int,
    {
        if k >= v.len() {
            return None;
        }
        if level_attr_check(v, k) {
            return Some(k);
        }
        if v[k] == '>' {
            return None;
        }
        k = k + 1;
    }
}

/// Finds the earliest `>` at or after `j`.
#[verifier::loop_isolation(false)]
fn find_gt_exec(v: &Vec<char>, j: usize) -> (r: Option<usize>)
    ensures
        match r {
            Some(g) => find_gt(v@, j as int) == Some(g as int) && g < v.len(),
            None => find_gt(v@, j as int) is None,
        },
{
    let mut k = j;
    loop
        invariant
            j <= k,
            find_gt(v@, j as int) == find_gt(v@, k as int),
        decreases v@.len() - k as int,
    {
        if k >= v.len() {
            return None;
        }
        if v[k] == '>' {
            return Some(k);
        }
        k = k + 1;
    }
}

/// Finds the end of the digit run starting at `j`.
#[verifier::loop_isolation(false)]
fn digits_end_exec(v: &Vec<char>, j: usize) -> (e: usize)
    requires
        j <= v.len(),
    ensures
        e as int == digits_end(v@, j as int),
        j <= e <= v.len(),
{
    let mut k = j;
    loop
        invariant
            j <= k <= v.len(),
            digits_end(v@, j as int) == digits_end(v@, k as int),
        decreases v@.len() - k as int,
    {
        if k >= v.len() || !char_is_digit(v[k]) {
            return k;
        }
        k = k + 1;
    }
}

/// Finds the end of the whitespace run starting at `j`.
#[verifier::loop_isolation(false)]
fn spaces_end_exec(v: &Vec<char>, j: usize) -> (e: usize)
    requires
        j <= v.len(),
    ensures
        e as int == spaces_end(v@, j as int),
        j <= e <= v.len(),
{
    let mut k = j;
    loop
        invariant
            j <= k <= v.len(),
            spaces_end(v@, j as int) == spaces_end(v@, k as int),
        decreases v@.len() - k as int,
    {
        if k >= v.len() || !char_is_space(v[k]) {
            return k;
        }
        k = k + 1;
    }
}

/// Tests for a literal count (digits, whitespace, `contribution`) at `q`.
fn count_text_check(v: &Vec<char>, q: usize) -> (b: bool)
    requires
        q <= v.len(),
    ensures
        b == count_text_at(v@, q as int),
{
    if q >= v.len() || !char_is_digit(v[q]) {
        return false;
    }
    let e = digits_end_exec(v, q);
    let w = spaces_end_exec(v, e);
    w > e && contribution_check(v, w)
}

/// Finds the earliest literal count reachable from `q` inside the tooltip.
#[verifier::loop_isolation(false)]
fn find_count_text_exec(v: &Vec<char>, q: usize) -> (r: Option<usize>)
    ensures
        match r {
            Some(p) => find_count_text(v@, q as int) == Some(p as int) && p < v.len(),
            None => find_count_text(v@, q as int) is None,
        },
{
    let mut k = q;
    loop
        invariant
            q <= k,
            find_count_text(v@, q as int) == find_count_text(v@, k as int),
        decreases v@.len() - k as int,
    {
        if k >= v.len() {
            return None;
        }
        if count_text_check(v, k) {
            return Some(k);
        }
        if v[k] == '<' {
            return None;
        }
        k = k + 1;
    }
}

/// Every character of a digit run is a digit.
proof fn lemma_digits_end_digits(s: Seq<char>, j: int)
    ensures
        forall|k: int| j <= k < digits_end(s, j) ==> is_digit(#[trigger] s[k]),
    decreases s.len() - j,
{
    if 0 <= j < s.len() && is_digit(s[j]) {
        lemma_digits_end_digits(s, j + 1);
    }
}

/// The value of a digit run is non-negative.
proof fn lemma_digits_value_nonneg(s: Seq<char>, j: int, e: int)
    requires
        forall|k: int| j <= k < e ==> is_digit(#[trigger] s[k]),
    ensures
        digits_value(s, j, e) >= 0,
    decreases e - j,
{
    if e > j {
        lemma_digits_value_nonneg(s, j, e - 1);
    }
}

/// Reads the digit run `v[q..e)` as a count; a value too large for `u32`
/// reads as 0, as an out-of-range literal does.
#[verifier::loop_isolation(false)]
fn count_from_digits(v: &Vec<char>, q: usize, e: usize) -> (c: u32)
    requires
        q <= e <= v.len(),
        e as int == digits_end(v@, q as int),
    ensures
        c == ({
            let val = digits_value(v@, q as int, e as int);
            if val <= u32::MAX {
                val as u32
            } else {
                0u32
            }
        }),
{
    proof {
        lemma_digits_end_digits(v@, q as int);
    }
    let mut val: u64 = 0;
    let mut big = false;
    let mut k = q;
    while k < e
        invariant
            q <= k <= e,
            !big ==> val as int == digits_value(v@, q as int, k as int) && val <= u32::MAX as u64,
            big ==> digits_value(v@, q as int, k as int) > u32::MAX,
        decreases e as int - k as int,
    {
        proof {
            lemma_digits_value_nonneg(v@, q as int, k as int);
        }
        let d = char_digit_val(v[k]);
        if !big {
            let nv = val * 10 + d as u64;
            if nv > u32::MAX as u64 {
                big = true;
            } else {
                val = nv;
            }
        }
        k = k + 1;
    }
    if big {
        0
    } else {
        val as u32
    }
}

/// Computes the numeric key of the date token of the attribute at `i`.
fn key_of_token(v: &Vec<char>, i: usize) -> (k: u32)
    requires
        date_attr_at(v@, i as int),
    ensures
        k as int == date_key(date_token_at(v@, i as int)),
        k < 100000000,
{
    assert(i + 22 <= v.len());
    let ghost t = date_token_at(v@, i as int);
    assert(t[0] == v@[i + 11] && t[1] == v@[i + 12] && t[2] == v@[i + 13] && t[3] == v@[i + 14]
        && t[5] == v@[i + 16] && t[6] == v@[i + 17] && t[8] == v@[i + 19] && t[9] == v@[i + 20]);
    let y: u32 = char_digit_val(v[i + 11]) as u32 * 1000 + char_digit_val(v[i + 12]) as u32 * 100
        + char_digit_val(v[i + 13]) as u32 * 10 + char_digit_val(v[i + 14]) as u32;
    let m: u32 = char_digit_val(v[i + 16]) as u32 * 10 + char_digit_val(v[i + 17]) as u32;
    let d: u32 = char_digit_val(v[i + 19]) as u32 * 10 + char_digit_val(v[i + 20]) as u32;
    y * 10000 + m * 100 + d
}

/// Digit values determine digit characters.
proof fn lemma_digit_char_eq(a: char, b: char)
    requires
        is_digit(a),
        is_digit(b),
        digit_val(a) == digit_val(b),
    ensures
        a == b,
{
}

/// Two well-shaped date tokens with one numeric key are one token.
pub proof fn lemma_date_key_injective(a: Seq<char>, b: Seq<char>)
    requires
        is_date_token(a),
        is_date_token(b),
        date_key(a) == date_key(b),
    ensures
        a == b,
{
    assert(crate::dates::token_year(a) == crate::dates::token_year(b) && crate::dates::token_month(
        a,
    ) == crate::dates::token_month(b) && crate::dates::token_day(a) == crate::dates::token_day(b));
    assert(digit_val(a[0]) == digit_val(b[0]) && digit_val(a[1]) == digit_val(b[1]) && digit_val(
        a[2],
    ) == digit_val(b[2]) && digit_val(a[3]) == digit_val(b[3]));
    assert(digit_val(a[5]) == digit_val(b[5]) && digit_val(a[6]) == digit_val(b[6]));
    assert(digit_val(a[8]) == digit_val(b[8]) && digit_val(a[9]) == digit_val(b[9]));
    lemma_digit_char_eq(a[0], b[0]);
    lemma_digit_char_eq(a[1], b[1]);
    lemma_digit_char_eq(a[2], b[2]);
    lemma_digit_char_eq(a[3], b[3]);
    lemma_digit_char_eq(a[5], b[5]);
    lemma_digit_char_eq(a[6], b[6]);
    lemma_digit_char_eq(a[8], b[8]);
    lemma_digit_char_eq(a[9], b[9]);
    assert(a =~= b);
}

/// The views of the literal-count entries.
pub open spec fn entry_views(s: Seq<(String, u32)>) -> Seq<(Seq<char>, u32)> {
    s.map_values(|p: (String, u32)| (p.0@, p.1))
}

/// Pass 1: collects every literal-count entry of the text, in order.
#[verifier::loop_isolation(false)]
fn scan_counts(html: &str, v: &Vec<char>) -> (out: Vec<(String, u32)>)
    requires
        html@ == v@,
    ensures
        entry_views(out@) == count_entries(v@),
{
    let mut out: Vec<(String, u32)> = Vec::new();
    let mut i: usize = 0;
    assert(count_entries(v@) =~= entry_views(out@) + cnt_scan(v@, 0));
    while i < v.len()
        invariant
            count_entries(v@) == entry_views(out@) + cnt_scan(v@, i as int),
        decreases v@.len() - i as int,
    {
        if date_attr_check(v, i) {
            match find_gt_exec(v, i + 22) {
                Some(g) => {
                    proof {
                        lemma_find_gt_bounds(v@, i + 22);
                    }
                    match find_count_text_exec(v, g + 1) {
                        Some(q) => {
                            proof {
                                lemma_find_count_text_bounds(v@, g + 1);
                            }
                            let e = digits_end_exec(v, q);
                            let w = spaces_end_exec(v, e);
                            let count = count_from_digits(v, q, e);
                            let tok = html.substring_char(i + 11, i + 21);
                            let date = String::from_str(tok);
                            assert(cnt_found(v@, i as int) && count == cnt_value(v@, i as int)
                                && cnt_resume(v@, i as int) == w + 12);
                            let ghost prev = out@;
                            out.push((date, count));
                            proof {
                                assert(entry_views(out@) =~= entry_views(prev) + seq![
                                    (date_token_at(v@, i as int), count),
                                ]);
                                assert(count_entries(v@) =~= entry_views(out@) + cnt_scan(
                                    v@,
                                    w + 12,
                                ));
                            }
                            i = w + 12;
                        },
                        None => {
                            if no_contributions_check(v, g + 1) {
                                let tok = html.substring_char(i + 11, i + 21);
                                let date = String::from_str(tok);
                                assert(cnt_found(v@, i as int) && cnt_value(v@, i as int) == 0
                                    && cnt_resume(v@, i as int) == g + 17);
                                let ghost prev = out@;
                                out.push((date, 0));
                                proof {
                                    assert(entry_views(out@) =~= entry_views(prev) + seq![
                                        (date_token_at(v@, i as int), 0u32),
                                    ]);
                                    assert(count_entries(v@) =~= entry_views(out@) + cnt_scan(
                                        v@,
                                        g + 17,
                                    ));
                                }
                                i = g + 17;
                            } else {
                                assert(!cnt_found(v@, i as int));
                                assert(cnt_scan(v@, i as int) == cnt_scan(v@, i + 1));
                                i = i + 1;
                            }
                        },
                    }
                },
                None => {
                    assert(!cnt_found(v@, i as int));
                    assert(cnt_scan(v@, i as int) == cnt_scan(v@, i + 1));
                    i = i + 1;
                },
            }
        } else {
            assert(cnt_scan(v@, i as int) == cnt_scan(v@, i + 1));
            i = i + 1;
        }
    }
    assert(cnt_scan(v@, i as int) =~= Seq::<(Seq<char>, u32)>::empty());
    assert(entry_views(out@) =~= count_entries(v@));
    out
}

/// The views of a sequence of day records.
pub open spec fn days_view(s: Seq<ContributionDay>) -> Seq<DayView> {
    s.map_values(|d: ContributionDay| d@)
}

/// The whole contract of extraction: the result is sorted strictly ascending
/// by date (so each date appears once), every record is extracted from the
/// text as `extracted_day` says, and every date pass 2 paired is represented.
pub open spec fn extraction_ok(s: Seq<char>, days: Seq<DayView>) -> bool {
    &&& forall|i: int, j: int|
        0 <= i < j < days.len() ==> date_key(days[i].date) < date_key(days[j].date)
    &&& forall|i: int| 0 <= i < days.len() ==> extracted_day(s, #[trigger] days[i])
    &&& forall|p: int|
        0 <= p < level_pairs(s).len() ==> exists|i: int|
            0 <= i < days.len() && days[i].date == (#[trigger] level_pairs(s)[p]).0
}

/// Every date paired so far is represented in the merged result.
#[verifier::opaque]
pub open spec fn dates_represented(done: Seq<(Seq<char>, char)>, days: Seq<DayView>) -> bool {
    forall|p: int|
        0 <= p < done.len() ==> exists|k: int|
            0 <= k < days.len() && days[k].date == (#[trigger] done[p]).0
}

/// `extracted_day`, stated against a prefix of the pass-2 pairings; the loop
/// invariant of the merge.
pub open spec fn merged_day(s: Seq<char>, done: Seq<(Seq<char>, char)>, d: DayView) -> bool {
    &&& is_date_token(d.date)
    &&& last_level(done, d.date) is Some
    &&& d.level as int == digit_val(last_level(done, d.date)->0)
    &&& d.count == resolved_count(s, d.date, d.level)
}

/// Recording one more pairing only changes the level looked up for its date.
proof fn lemma_last_level_push(ps: Seq<(Seq<char>, char)>, p: (Seq<char>, char))
    ensures
        last_level(ps.push(p), p.0) == Some(p.1),
        forall|d: Seq<char>| d != p.0 ==> last_level(ps.push(p), d) == last_level(ps, d),
{
    assert(ps.push(p).drop_last() =~= ps);
    assert(ps.push(p).last() == p);
}

/// Recording one more entry only changes the count looked up for its date.
proof fn lemma_lookup_push(es: Seq<(Seq<char>, u32)>, x: (Seq<char>, u32))
    ensures
        lookup_count(es.push(x), x.0) == Some(x.1),
        forall|d: Seq<char>| d != x.0 ==> lookup_count(es.push(x), d) == lookup_count(es, d),
{
    assert(es.push(x).drop_last() =~= es);
    assert(es.push(x).last() == x);
}

/// The date token of a date attribute is well shaped.
proof fn lemma_attr_token(s: Seq<char>, i: int)
    requires
        date_attr_at(s, i),
    ensures
        is_date_token(date_token_at(s, i)),
{
    let t = date_token_at(s, i);
    assert(t.len() == 10);
    assert(t[0] == s[i + 11] && t[1] == s[i + 12] && t[2] == s[i + 13] && t[3] == s[i + 14] && t[4]
        == s[i + 15] && t[5] == s[i + 16] && t[6] == s[i + 17] && t[7] == s[i + 18] && t[8] == s[i
        + 19] && t[9] == s[i + 20]);
}

/// Looks up the last literal count recorded for `date`.
#[verifier::loop_isolation(false)]
fn lookup_count_exec(counts: &Vec<(String, u32)>, date: &String) -> (r: Option<u32>)
    ensures
        r == lookup_count(entry_views(counts@), date@),
{
    let mut best: Option<u32> = None;
    let mut idx: usize = 0;
    assert(counts@.take(0) =~= Seq::<(String, u32)>::empty());
    assert(entry_views(counts@.take(0)) =~= Seq::<(Seq<char>, u32)>::empty());
    while idx < counts.len()
        invariant
            idx <= counts.len(),
            best == lookup_count(entry_views(counts@.take(idx as int)), date@),
        decreases counts@.len() - idx as int,
    {
        let entry = &counts[idx];
        let ghost prefix = entry_views(counts@.take(idx as int));
        let ghost x = (entry.0@, entry.1);
        proof {
            assert(counts@.take(idx as int + 1) =~= counts@.take(idx as int).push(counts@[
                idx as int],
            ));
            assert(entry_views(counts@.take(idx as int + 1)) =~= prefix.push(x));
            lemma_lookup_push(prefix, x);
        }
        if entry.0 == *date {
            best = Some(entry.1);
        }
        idx = idx + 1;
    }
    assert(counts@.take(counts@.len() as int) =~= counts@);
    best
}

/// Pass 2 plus merging: emits one record per paired date, the last level
/// winning on duplicates, counts resolved against pass 1, and keeps the
/// result sorted strictly ascending by date.
#[verifier::loop_isolation(false)]
fn scan_days(html: &str, v: &Vec<char>, counts: &Vec<(String, u32)>) -> (days: Vec<
    ContributionDay,
>)
    requires
        html@ == v@,
        entry_views(counts@) == count_entries(v@),
    ensures
        extraction_ok(v@, days_view(days@)),
        days@.len() == 0 <==> level_pairs(v@).len() == 0,
{
    let mut days: Vec<ContributionDay> = Vec::new();
    let mut keys: Vec<u32> = Vec::new();
    let ghost mut done: Seq<(Seq<char>, char)> = Seq::empty();
    let mut i: usize = 0;
    assert(level_pairs(v@) =~= done + dl_scan(v@, 0));
    proof {
        reveal(dates_represented);
        assert(dates_represented(done, days_view(days@)));
    }
    while i < v.len()
        invariant
            level_pairs(v@) == done + dl_scan(v@, i as int),
            keys@.len() == days@.len(),
            forall|k: int|
                0 <= k < days@.len() ==> keys@[k] as int == date_key((#[trigger] days@[k])@.date),
            forall|k1: int, k2: int|
                0 <= k1 < k2 < days@.len() ==> date_key(days@[k1]@.date) < date_key(
                    days@[k2]@.date,
                ),
            forall|k: int| 0 <= k < days@.len() ==> merged_day(v@, done, (#[trigger] days@[k])@),
            dates_represented(done, days_view(days@)),
        decreases v@.len() - i as int,
    {
        if !date_attr_check(v, i) {
            assert(dl_scan(v@, i as int) == dl_scan(v@, i + 1));
            i = i + 1;
            continue ;
        }
        let fl = find_level_exec(v, i + 22);
        if fl.is_none() {
            assert(!dl_found(v@, i as int));
            assert(dl_scan(v@, i as int) == dl_scan(v@, i + 1));
            i = i + 1;
            continue ;
        }
        let m = fl.unwrap();
        proof {
            lemma_find_level_bounds(v@, i + 22);
            lemma_attr_token(v@, i as int);
        }
        let ghost tok = date_token_at(v@, i as int);
        let lvlc = v[m + 12];
        let lvl = char_digit_val(lvlc);
        let sub = html.substring_char(i + 11, i + 21);
        let date = String::from_str(sub);
        assert(date@ == tok);
        let count = match lookup_count_exec(counts, &date) {
            Some(c) => c,
            None => crate::estimate_count_from_level(lvl),
        };
        assert(count == resolved_count(v@, tok, lvl));
        let key = key_of_token(v, i);
        let newday = ContributionDay { date, count, level: lvl };
        assert(newday@.date == tok && newday@.count == count && newday@.level == lvl);
        // find the insertion position: the first index whose key is not below
        let mut pos: usize = 0;
        while pos < keys.len() && keys[pos] < key
            invariant
                pos <= keys@.len(),
                forall|k: int| 0 <= k < pos ==> keys@[k] < key,
            decreases keys@.len() - pos as int,
        {
            pos = pos + 1;
        }
        let ghost old_days = days@;
        let ghost old_done = done;
        let ghost pair = (tok, dl_level(v@, i as int));
        assert(pair.1 == lvlc);
        proof {
            done = done.push(pair);
            lemma_last_level_push(old_done, pair);
            assert(level_pairs(v@) =~= done + dl_scan(v@, dl_resume(v@, i as int))) by {
                assert(dl_scan(v@, i as int) == seq![pair] + dl_scan(v@, dl_resume(v@, i as int)));
            }
        }
        if pos < keys.len() && keys[pos] == key {
            proof {
                lemma_date_key_injective(old_days[pos as int]@.date, tok);
            }
            days.set(pos, newday);
            proof {
                reveal(dates_represented);
                assert forall|k: int| 0 <= k < days@.len() implies merged_day(
                    v@,
                    done,
                    (#[trigger] days@[k])@,
                ) by {
                    if k != pos {
                        assert(days@[k] == old_days[k]);
                        assert(old_days[k]@.date != tok);
                    }
                }
                let dv = days_view(days@);
                let odv = days_view(old_days);
                assert forall|p: int| 0 <= p < done.len() implies exists|k: int|
                    0 <= k < dv.len() && dv[k].date == (#[trigger] done[p]).0 by {
                    if p < done.len() - 1 {
                        let k0 = choose|k0: int| 0 <= k0 < odv.len() && odv[k0].date == old_done[p].0;
                        if k0 == pos {
                            assert(dv[pos as int].date == done[p].0);
                        } else {
                            assert(days@[k0] == old_days[k0]);
                            assert(dv[k0].date == done[p].0);
                        }
                    } else {
                        assert(dv[pos as int].date == done[p].0);
                    }
                }
                assert(dates_represented(done, days_view(days@)));
            }
        } else {
            proof {
                assert forall|k: int| 0 <= k < keys@.len() implies keys@[k] != key by {
                    if k >= pos {
                        assert(keys@[pos as int] != key && keys@[pos as int] >= key);
                        if k > pos {
                            assert(date_key(days@[pos as int]@.date) < date_key(days@[k]@.date));
                            assert(keys@[pos as int] < keys@[k]);
                        }
                    }
                }
                old_days.insert_ensures(pos as int, newday);
                keys@.insert_ensures(pos as int, key);
            }
            days.insert(pos, newday);
            keys.insert(pos, key);
            proof {
                assert forall|k: int| 0 <= k < days@.len() implies merged_day(
                    v@,
                    done,
                    (#[trigger] days@[k])@,
                ) by {
                    if k < pos {
                        assert(days@[k] == old_days[k]);
                        assert(old_days[k]@.date != tok);
                    } else if k == pos {
                        assert(days@[k] == newday);
                    } else {
                        assert(days@[k] == old_days[k - 1]);
                        assert(old_days[k - 1]@.date != tok);
                    }
                }
                assert forall|k1: int, k2: int| 0 <= k1 < k2 < days@.len() implies date_key(
                    days@[k1]@.date,
                ) < date_key(days@[k2]@.date) by {
                    assert(keys@[k1] as int == date_key(days@[k1]@.date));
                    assert(keys@[k2] as int == date_key(days@[k2]@.date));
                    if k1 < pos && k2 == pos {
                        assert(keys@[k1] < key);
                    } else if k1 == pos && k2 > pos {
                        assert(keys@[k2] > key);
                    }
                }
                reveal(dates_represented);
                let dv = days_view(days@);
                let odv = days_view(old_days);
                assert forall|p: int| 0 <= p < done.len() implies exists|k: int|
                    0 <= k < dv.len() && dv[k].date == (#[trigger] done[p]).0 by {
                    if p < done.len() - 1 {
                        let k0 = choose|k0: int| 0 <= k0 < odv.len() && odv[k0].date == old_done[p].0;
                        if k0 < pos {
                            assert(days@[k0] == old_days[k0]);
                            assert(dv[k0].date == done[p].0);
                        } else {
                            assert(days@[k0 + 1] == old_days[k0]);
                            assert(dv[k0 + 1].date == done[p].0);
                        }
                    } else {
                        assert(dv[pos as int].date == done[p].0);
                    }
                }
                assert(dates_represented(done, days_view(days@)));
            }
        }
        let ghost next = dl_resume(v@, i as int);
        assert(i < next <= v@.len());
        i = m + 14;
        assert(i as int == next);
    }
    proof {
        reveal(dates_represented);
        assert(dl_scan(v@, i as int) =~= Seq::<(Seq<char>, char)>::empty());
        assert(done =~= level_pairs(v@));
        let dv = days_view(days@);
        assert(dv.len() == days@.len());
        assert forall|k1: int, k2: int| 0 <= k1 < k2 < dv.len() implies date_key(dv[k1].date)
            < date_key(dv[k2].date) by {
            assert(dv[k1] == days@[k1]@ && dv[k2] == days@[k2]@);
        }
        assert forall|k: int| 0 <= k < dv.len() implies extracted_day(v@, #[trigger] dv[k]) by {
            assert(merged_day(v@, done, days@[k]@));
        }
        assert forall|p: int| 0 <= p < level_pairs(v@).len() implies exists|k: int|
            0 <= k < dv.len() && dv[k].date == (#[trigger] level_pairs(v@)[p]).0 by {
            let k0 = choose|k0: int| 0 <= k0 < dv.len() && dv[k0].date == done[p].0;
            assert(0 <= k0 < dv.len() && dv[k0].date == level_pairs(v@)[p].0);
        }
        assert(extraction_ok(v@, dv));
        if days@.len() > 0 {
            assert(last_level(done, days@[0]@.date) is Some);
            assert(done.len() > 0);
        }
        if level_pairs(v@).len() > 0 {
            assert(exists|k: int| 0 <= k < dv.len() && dv[k].date == (level_pairs(v@)[0]).0);
            assert(days@.len() > 0);
        }
    }
    days
}

/// Extracts the day records of a markup text: every date paired with an
/// intensity level yields one record, duplicates collapsed (last level wins),
/// counts taken from literal tooltip text where present and estimated from
/// the level otherwise, the whole sorted ascending by date. Fails with
/// `NoDataFound` exactly when the text holds no such pairing.
pub fn parse_contribution_html(html: &str) -> (r: Result<Vec<ContributionDay>, ParseError>)
    ensures
        match r {
            Ok(days) => level_pairs(html@).len() > 0 && extraction_ok(html@, days_view(days@))
                && days@.len() > 0,
            Err(e) => level_pairs(html@).len() == 0 && e == ParseError::NoDataFound,
        },
{
    let v = to_char_vec(html);
    let counts = scan_counts(html, &v);
    let days = scan_days(html, &v, &counts);
    if days.len() == 0 {
        Err(ParseError::NoDataFound)
    } else {
        Ok(days)
    }
}

} // verus!
