//! The decisions of the command-line front end: building pattern
//! definitions from options, parsing identifiers and hunk lists, choosing
//! what an undo request does, and the texts it shows.
use vstd::prelude::*;

use crate::boundary::{HyphenMode, WordBoundaryMode};
use crate::errors::SearchError;
use crate::matcher::PatternDefinition;
use crate::undo::{join_lines, join_with_newlines, DiffHunk};
use crate::text::{
    lines_of, split_lines,
    chars_of, concat_text, copy_string, decimal, is_ascii_digit_spec, parse_unsigned, parse_usize,
    split_chars, split_on, string_from_chars, text_eq, trim_chars, trim_seq, u64_to_decimal,
    usize_to_decimal, views,
};

verus! {

// ---------------------------------------------------------------------------
// Integer parsing with the reason of a failure
// ---------------------------------------------------------------------------
/// Why text is not an unsigned integer.
#[derive(Debug, Clone, Copy, PartialEq, Eq, Structural)]
pub enum IntErrorKind {
    Empty,
    InvalidDigit,
    PosOverflow,
}

/// Scanning digits left to right: the value so far, or the first problem
/// met (a character that is not a digit, or a value past `limit`).
pub open spec fn digit_scan(d: Seq<char>, limit: nat) -> Result<nat, IntErrorKind>
    decreases d.len(),
{
    if d.len() == 0 {
        Ok(0)
    } else {
        match digit_scan(d.drop_last(), limit) {
            Err(k) => Err(k),
            Ok(v) => if !is_ascii_digit_spec(d.last()) {
                Err(IntErrorKind::InvalidDigit)
            } else if v * 10 + ((d.last() as u32) - 48) > limit {
                Err(IntErrorKind::PosOverflow)
            } else {
                Ok(v * 10 + ((d.last() as u32) - 48) as nat)
            },
        }
    }
}

/// Parsing `s` as an unsigned integer no greater than `limit`, as
/// `str::parse` does: the empty text, a lone sign, a character that is not
/// a digit, or a value too large each fail with their reason.
pub open spec fn parse_with_reason(s: Seq<char>, limit: nat) -> Result<nat, IntErrorKind> {
    if s.len() == 0 {
        Err(IntErrorKind::Empty)
    } else if s.len() == 1 && (s[0] == '+' || s[0] == '-') {
        Err(IntErrorKind::InvalidDigit)
    } else if s[0] == '+' {
        digit_scan(s.drop_first(), limit)
    } else {
        digit_scan(s, limit)
    }
}

/// The message of an integer parse failure, as it is displayed.
pub open spec fn int_error_message(k: IntErrorKind) -> Seq<char> {
    match k {
        IntErrorKind::Empty => "cannot parse integer from empty string"@,
        IntErrorKind::InvalidDigit => "invalid digit found in string"@,
        IntErrorKind::PosOverflow => "number too large to fit in target type"@,
    }
}

fn int_error_text(k: IntErrorKind) -> (r: String)
    ensures
        r@ == int_error_message(k),
{
    match k {
        IntErrorKind::Empty => "cannot parse integer from empty string".to_owned(),
        IntErrorKind::InvalidDigit => "invalid digit found in string".to_owned(),
        IntErrorKind::PosOverflow => "number too large to fit in target type".to_owned(),
    }
}

/// Parses an unsigned integer no greater than `limit`, reporting why it
/// fails (see [`parse_with_reason`]).
pub fn parse_unsigned_reason(s: &str, limit: u64) -> (r: Result<u64, IntErrorKind>)
    ensures
        match parse_with_reason(s@, limit as nat) {
            Ok(v) => r matches Ok(x) && x == v,
            Err(k) => r == Err::<u64, IntErrorKind>(k),
        },
{
    let cs = chars_of(s);
    if cs.len() == 0 {
        return Err(IntErrorKind::Empty);
    }
    if cs.len() == 1 && (cs[0] == '+' || cs[0] == '-') {
        return Err(IntErrorKind::InvalidDigit);
    }
    let start: usize = if cs[0] == '+' {
        1
    } else {
        0
    };
    let ghost d = if cs@[0] == '+' {
        cs@.drop_first()
    } else {
        cs@
    };
    assert(d =~= cs@.skip(start as int));
    let mut v: u64 = 0;
    let mut i: usize = start;
    assert(d.take(0) =~= Seq::<char>::empty());
    assert(parse_with_reason(s@, limit as nat) == digit_scan(d, limit as nat));
    while i < cs.len()
        invariant
            start <= i <= cs@.len(),
            d == cs@.skip(start as int),
            parse_with_reason(s@, limit as nat) == digit_scan(d, limit as nat),
            digit_scan(d.take(i - start), limit as nat) == Ok::<nat, IntErrorKind>(v as nat),
            v <= limit,
        decreases cs@.len() - i,
    {
        let c = cs[i];
        let ghost k: int = i - start;
        assert(d.take(k + 1).drop_last() =~= d.take(k));
        assert(d.take(k + 1).last() == c);
        if !('0' <= c && c <= '9') {
            proof {
                lemma_scan_stays_err(d, k + 1, limit as nat, IntErrorKind::InvalidDigit);
            }
            return Err(IntErrorKind::InvalidDigit);
        }
        let dig: u64 = (c as u32 - 48) as u64;
        if dig > limit || v > (limit - dig) / 10 {
            assert(v * 10 + dig > limit) by (nonlinear_arith)
                requires
                    dig > limit || v > (limit - dig) / 10,
                    dig <= limit ==> limit - dig >= 0,
            ;
            proof {
                lemma_scan_stays_err(d, k + 1, limit as nat, IntErrorKind::PosOverflow);
            }
            return Err(IntErrorKind::PosOverflow);
        }
        assert(v * 10 + dig <= limit) by (nonlinear_arith)
            requires
                v <= (limit - dig) / 10,
                dig <= limit,
        ;
        v = v * 10 + dig;
        i = i + 1;
    }
    assert(d.take(cs@.len() - start) =~= d);
    Ok(v)
}

/// A scan that failed on a prefix fails the same way on the whole text.
proof fn lemma_scan_stays_err(d: Seq<char>, k: int, limit: nat, e: IntErrorKind)
    requires
        0 <= k <= d.len(),
        digit_scan(d.take(k), limit) == Err::<nat, IntErrorKind>(e),
    ensures
        digit_scan(d, limit) == Err::<nat, IntErrorKind>(e),
    decreases d.len() - k,
{
    if k < d.len() {
        assert(d.take(k + 1).drop_last() =~= d.take(k));
        lemma_scan_stays_err(d, k + 1, limit, e);
    } else {
        assert(d.take(k) =~= d);
    }
}

/// Parses an undo operation ID.
pub fn parse_undo_id(id: &str) -> (r: Result<u64, SearchError>)
    ensures
        match parse_with_reason(id@, u64::MAX as nat) {
            Ok(v) => r matches Ok(x) && x == v,
            Err(k) => r matches Err(SearchError::ConfigError(m)) && m@ == "Invalid undo ID: "@
                + int_error_message(k),
        },
{
    match parse_unsigned_reason(id, u64::MAX) {
        Ok(v) => Ok(v),
        Err(k) => {
            let reason = int_error_text(k);
            Err(SearchError::ConfigError(concat_text("Invalid undo ID: ", reason.as_str())))
        },
    }
}

// ---------------------------------------------------------------------------
// Hunk lists
// ---------------------------------------------------------------------------
/// The pieces of a comma-separated list, trimmed.
pub open spec fn list_pieces(s: Seq<char>) -> Seq<Seq<char>> {
    split_on(s, ',').map_values(|p: Seq<char>| trim_seq(p))
}

/// The first piece of `pieces[from..]` that is not a `usize`.
pub open spec fn first_bad_index(pieces: Seq<Seq<char>>, from: int) -> Option<Seq<char>>
    decreases pieces.len() - from,
{
    if from < 0 || from >= pieces.len() {
        None
    } else if parse_unsigned(pieces[from], usize::MAX as nat) is None {
        Some(pieces[from])
    } else {
        first_bad_index(pieces, from + 1)
    }
}

/// The value of every piece.
pub open spec fn piece_values(pieces: Seq<Seq<char>>) -> Seq<nat> {
    pieces.map_values(|p: Seq<char>| parse_unsigned(p, usize::MAX as nat)->Some_0)
}

/// Parses a comma-separated list of hunk indices: each piece, trimmed,
/// must be a `usize`; the first one that is not is reported.
pub fn parse_hunk_indices(s: &str) -> (r: Result<Vec<usize>, SearchError>)
    ensures
        match first_bad_index(list_pieces(s@), 0) {
            Some(p) => r matches Err(SearchError::ConfigError(m)) && m@ == "Invalid hunk index: "@
                + p,
            None => r matches Ok(v) && v@.len() == list_pieces(s@).len() && forall|i: int|
                0 <= i < v@.len() ==> (#[trigger] v@[i]) as nat == piece_values(list_pieces(s@))[i],
        },
{
    let cs = chars_of(s);
    let pieces = split_chars(&cs, ',');
    let ghost lp = list_pieces(s@);
    let mut out: Vec<usize> = Vec::new();
    let mut i: usize = 0;
    while i < pieces.len()
        invariant
            0 <= i <= pieces@.len(),
            lp == list_pieces(s@),
            lp.len() == pieces@.len(),
            forall|k: int| 0 <= k < pieces@.len() ==> lp[k] == trim_seq(#[trigger] pieces@[k]@),
            first_bad_index(lp, 0) == first_bad_index(lp, i as int),
            out@.len() == i,
            forall|k: int| 0 <= k < i ==> (#[trigger] out@[k]) as nat == piece_values(lp)[k],
        decreases pieces@.len() - i,
    {
        let pc = chars_of(pieces[i].as_str());
        let t = trim_chars(&pc);
        let ts = string_from_chars(&t);
        assert(ts@ == lp[i as int]);
        match parse_usize(ts.as_str()) {
            Some(v) => {
                out.push(v);
            },
            None => {
                return Err(
                    SearchError::ConfigError(concat_text("Invalid hunk index: ", ts.as_str())),
                );
            },
        }
        i = i + 1;
    }
    Ok(out)
}

/// The indices `0..total`.
pub fn all_hunk_indices(total: usize) -> (r: Vec<usize>)
    ensures
        r@ == Seq::new(total as nat, |i: int| i as usize),
{
    let mut r: Vec<usize> = Vec::new();
    let mut i: usize = 0;
    while i < total
        invariant
            0 <= i <= total,
            r@ == Seq::new(i as nat, |k: int| k as usize),
        decreases total - i,
    {
        r.push(i);
        assert(r@ =~= Seq::new((i + 1) as nat, |k: int| k as usize));
        i = i + 1;
    }
    r
}

// ---------------------------------------------------------------------------
// Undo requests
// ---------------------------------------------------------------------------
/// The options of an undo request.
#[derive(Debug)]
pub struct UndoRequest {
    pub id: String,
    pub list_hunks: bool,
    pub hunks: Option<String>,
    pub preview: bool,
    pub interactive: bool,
    pub force: bool,
}

/// What an undo request does.
#[derive(Debug)]
pub enum UndoPlan {
    /// Show the backups that a full revert would restore.
    PreviewFull,
    /// Restore every file from its backup.
    RevertFull,
    /// List the hunks, with their lines when previewing.
    ListHunks { with_lines: bool },
    /// Show the content the selected hunks would restore.
    PreviewHunks(Vec<usize>),
    /// Let the user pick the hunks.
    Interactive,
    /// Revert the selected hunks (all of them when the list is empty),
    /// after asking when `confirm` is set.
    RevertHunks { indices: Vec<usize>, confirm: bool },
}

/// The message for an undo request that combines interactive selection
/// with a hunk list.
pub open spec fn conflicting_flags_message() -> Seq<char> {
    "Cannot use --interactive and --hunks together. Please use one or the other."@
}

/// The message for a partial revert of an operation without diffs.
pub open spec fn full_backup_only_message() -> Seq<char> {
    "This undo operation only supports full-file backups; partial revert is not possible."@
}

/// Rejects an undo request that asks for interactive selection and a hunk
/// list at once.
pub fn check_undo_flags(req: &UndoRequest) -> (r: Result<(), SearchError>)
    ensures
        (req.interactive && req.hunks is Some) ==> (r matches Err(SearchError::ConfigError(m)) && m@
            == conflicting_flags_message()),
        !(req.interactive && req.hunks is Some) ==> r is Ok,
{
    if req.interactive && req.hunks.is_some() {
        return Err(
            SearchError::ConfigError(
                "Cannot use --interactive and --hunks together. Please use one or the other.".to_owned(),
            ),
        );
    }
    Ok(())
}

/// The hunk indices a request selects: its list, or every hunk.
pub open spec fn selected_indices_ok(req: UndoRequest, total: usize, v: Seq<usize>) -> bool {
    match req.hunks {
        Some(h) => first_bad_index(list_pieces(h@), 0) is None && v.len() == list_pieces(h@).len()
            && forall|i: int| 0 <= i < v.len() ==> (#[trigger] v[i]) as nat == piece_values(
            list_pieces(h@),
        )[i],
        None => v == Seq::new(total as nat, |i: int| i as usize),
    }
}

/// The request's hunk list has a piece that is not an index.
pub open spec fn has_bad_list(req: UndoRequest) -> bool {
    match req.hunks {
        Some(h) => first_bad_index(list_pieces(h@), 0) is Some,
        None => false,
    }
}

/// A bad hunk list in the request is reported.
pub open spec fn bad_list_reported(req: UndoRequest, r: Result<UndoPlan, SearchError>) -> bool {
    req.hunks matches Some(h) && first_bad_index(list_pieces(h@), 0) matches Some(p) && r matches Err(
        SearchError::ConfigError(m),
    ) && m@ == "Invalid hunk index: "@ + p
}

/// A bad hunk list in the request is reported by a parse result.
pub open spec fn bad_list_reported_indices(req: UndoRequest, r: Result<Vec<usize>, SearchError>) -> bool {
    req.hunks matches Some(h) && first_bad_index(list_pieces(h@), 0) matches Some(p) && r matches Err(
        SearchError::ConfigError(m),
    ) && m@ == "Invalid hunk index: "@ + p
}

fn selected_indices(req: &UndoRequest, total: usize) -> (r: Result<Vec<usize>, SearchError>)
    ensures
        r matches Ok(v) ==> selected_indices_ok(*req, total, v@),
        r is Err ==> bad_list_reported_indices(*req, r),
        !has_bad_list(*req) ==> r is Ok,
{
    match &req.hunks {
        Some(h) => parse_hunk_indices(h.as_str()),
        None => Ok(all_hunk_indices(total)),
    }
}

/// Decides what an undo request does for an operation with or without
/// diffs and `total` hunks: without diffs only a full preview or revert is
/// possible; with diffs the request lists, previews, selects
/// interactively, or reverts the selected hunks.
pub fn decide_undo(req: &UndoRequest, has_diffs: bool, total: usize) -> (r: Result<UndoPlan, SearchError>)
    ensures
        !has_diffs && (req.hunks is Some || req.list_hunks || req.interactive) ==> (r matches Err(
            SearchError::ConfigError(m),
        ) && m@ == full_backup_only_message()),
        !has_diffs && !(req.hunks is Some || req.list_hunks || req.interactive) ==> (if req.preview {
            r matches Ok(UndoPlan::PreviewFull)
        } else {
            r matches Ok(UndoPlan::RevertFull)
        }),
        has_diffs && req.list_hunks ==> (r matches Ok(UndoPlan::ListHunks { with_lines })
            && with_lines == req.preview),
        has_diffs && !req.list_hunks && req.preview ==> ((r matches Ok(UndoPlan::PreviewHunks(v))
            && selected_indices_ok(*req, total, v@)) || bad_list_reported(*req, r)),
        has_diffs && !req.list_hunks && !req.preview && req.interactive ==> r matches Ok(
            UndoPlan::Interactive,
        ),
        has_diffs && !req.list_hunks && !req.preview && !req.interactive ==> ((r matches Ok(
            UndoPlan::RevertHunks { indices, confirm },
        ) && selected_indices_ok(*req, total, indices@) && confirm == !req.force) || bad_list_reported(
            *req,
            r,
        )),
        has_diffs && !req.list_hunks && !((req.preview || !req.interactive) && has_bad_list(*req))
            ==> r is Ok,
        has_diffs && !req.list_hunks && req.preview && has_bad_list(*req) ==> bad_list_reported(
            *req,
            r,
        ),
{
    if !has_diffs {
        if req.hunks.is_some() || req.list_hunks || req.interactive {
            return Err(
                SearchError::ConfigError(
                    "This undo operation only supports full-file backups; partial revert is not possible.".to_owned(),
                ),
            );
        }
        if req.preview {
            return Ok(UndoPlan::PreviewFull);
        }
        return Ok(UndoPlan::RevertFull);
    }
    if req.list_hunks {
        return Ok(UndoPlan::ListHunks { with_lines: req.preview });
    }
    if req.preview {
        return match selected_indices(req, total) {
            Ok(v) => Ok(UndoPlan::PreviewHunks(v)),
            Err(e) => Err(e),
        };
    }
    if req.interactive {
        return Ok(UndoPlan::Interactive);
    }
    match selected_indices(req, total) {
        Ok(v) => Ok(UndoPlan::RevertHunks { indices: v, confirm: !req.force }),
        Err(e) => Err(e),
    }
}

/// The text naming the original lines of a hunk: `line N` for one line,
/// `lines A–B` otherwise.
pub open spec fn hunk_range(start: usize, count: usize) -> Seq<char> {
    if count == 1 {
        "line "@ + decimal(start as nat)
    } else {
        "lines "@ + decimal(start as nat) + "–"@ + decimal((start + count - 1) as nat)
    }
}

/// The text naming the original lines of a hunk (see [`hunk_range`]);
/// the last line number must not fall below zero or past `usize::MAX`.
pub fn hunk_range_text(start: usize, count: usize) -> (r: String)
    requires
        start + count >= 1,
        start + count <= usize::MAX,
    ensures
        r@ == hunk_range(start, count),
{
    if count == 1 {
        let d = usize_to_decimal(start);
        concat_text("line ", d.as_str())
    } else {
        let a = usize_to_decimal(start);
        let b = usize_to_decimal(start + count - 1);
        let x = concat_text("lines ", a.as_str());
        let y = concat_text(x.as_str(), "–");
        concat_text(y.as_str(), b.as_str())
    }
}

/// The choices of an interactive hunk selection: empty input selects
/// every hunk; otherwise each piece that is an index below `total` is
/// chosen and the other pieces are reported; the choices are sorted and
/// without repetition.
pub open spec fn valid_choice(piece: Seq<char>, total: usize) -> bool {
    parse_unsigned(piece, usize::MAX as nat) matches Some(v) && v < total
}

/// The chosen indices are sorted, distinct, and exactly the indices below
/// `total` that some valid piece names (every index when the input is
/// empty).
pub open spec fn choices_ok(input: Seq<char>, total: usize, chosen: Seq<usize>) -> bool {
    &&& forall|i: int, j: int| 0 <= i < j < chosen.len() ==> #[trigger] chosen[i] < #[trigger] chosen[j]
    &&& forall|k: usize|
        chosen.contains(k) <==> (k < total && (input.len() == 0 || exists|i: int|
            0 <= i < list_pieces(input).len() && valid_choice(#[trigger] list_pieces(input)[i], total)
                && parse_unsigned(list_pieces(input)[i], usize::MAX as nat) == Some(k as nat)))
}

/// The pieces that are not valid choices, in order.
pub open spec fn invalid_pieces(pieces: Seq<Seq<char>>, total: usize) -> Seq<Seq<char>>
    decreases pieces.len(),
{
    if pieces.len() == 0 {
        seq![]
    } else {
        let prev = invalid_pieces(pieces.drop_last(), total);
        if valid_choice(pieces.last(), total) {
            prev
        } else {
            prev.push(pieces.last())
        }
    }
}

/// Parses an interactive hunk selection (see [`choices_ok`]); also gives
/// the trimmed pieces that were ignored, in order.
pub fn parse_hunk_choices(input: &str, total: usize) -> (r: (Vec<usize>, Vec<String>))
    ensures
        choices_ok(input@, total, r.0@),
        views(r.1@) == if input@.len() == 0 {
            Seq::<Seq<char>>::empty()
        } else {
            invalid_pieces(list_pieces(input@), total)
        },
{
    let cs = chars_of(input);
    let mut marks: Vec<bool> = Vec::new();
    let mut k: usize = 0;
    while k < total
        invariant
            0 <= k <= total,
            cs@ == input@,
            marks@.len() == k,
            forall|j: int| 0 <= j < k ==> marks@[j] == (input@.len() == 0),
        decreases total - k,
    {
        marks.push(cs.len() == 0);
        k = k + 1;
    }
    let mut ignored: Vec<String> = Vec::new();
    if cs.len() > 0 {
        let pieces = split_chars(&cs, ',');
        let ghost lp = list_pieces(input@);
        let mut i: usize = 0;
        while i < pieces.len()
            invariant
                0 <= i <= pieces@.len(),
                input@.len() > 0,
                lp == list_pieces(input@),
                lp.len() == pieces@.len(),
                forall|m: int| 0 <= m < pieces@.len() ==> lp[m] == trim_seq(#[trigger] pieces@[m]@),
                marks@.len() == total,
                forall|j: int|
                    0 <= j < total ==> #[trigger] marks@[j] == exists|m: int|
                        0 <= m < i && valid_choice(#[trigger] lp[m], total) && parse_unsigned(
                            lp[m],
                            usize::MAX as nat,
                        ) == Some(j as nat),
                views(ignored@) == invalid_pieces(lp.take(i as int), total),
            decreases pieces@.len() - i,
        {
            let ghost ig0 = ignored@;
            proof {
                assert(lp.take(i + 1).drop_last() =~= lp.take(i as int));
                assert(lp.take(i + 1).last() == lp[i as int]);
            }
            let pc = chars_of(pieces[i].as_str());
            let t = trim_chars(&pc);
            let ts = string_from_chars(&t);
            assert(ts@ == lp[i as int]);
            match parse_usize(ts.as_str()) {
                Some(v) => {
                    if v < total {
                        let ghost m0 = marks@;
                        marks.set(v, true);
                        assert forall|j: int| 0 <= j < total implies #[trigger] marks@[j] == exists|m: int|
                            0 <= m < i + 1 && valid_choice(#[trigger] lp[m], total) && parse_unsigned(
                                lp[m],
                                usize::MAX as nat,
                            ) == Some(j as nat) by {
                            if j == v {
                                assert(valid_choice(lp[i as int], total));
                            } else {
                                assert(marks@[j] == m0[j]);
                                if exists|m: int|
                                    0 <= m < i + 1 && valid_choice(#[trigger] lp[m], total)
                                        && parse_unsigned(lp[m], usize::MAX as nat) == Some(j as nat) {
                                    let m = choose|m: int|
                                        0 <= m < i + 1 && valid_choice(#[trigger] lp[m], total)
                                            && parse_unsigned(lp[m], usize::MAX as nat) == Some(
                                            j as nat,
                                        );
                                    assert(m < i);
                                }
                            }
                        }
                    } else {
                        ignored.push(ts);
                        assert(views(ignored@) =~= views(ig0).push(lp[i as int]));
                        assert forall|j: int| 0 <= j < total implies #[trigger] marks@[j] == exists|m: int|
                            0 <= m < i + 1 && valid_choice(#[trigger] lp[m], total) && parse_unsigned(
                                lp[m],
                                usize::MAX as nat,
                            ) == Some(j as nat) by {
                            if exists|m: int|
                                0 <= m < i + 1 && valid_choice(#[trigger] lp[m], total)
                                    && parse_unsigned(lp[m], usize::MAX as nat) == Some(j as nat) {
                                let m = choose|m: int|
                                    0 <= m < i + 1 && valid_choice(#[trigger] lp[m], total)
                                        && parse_unsigned(lp[m], usize::MAX as nat) == Some(j as nat);
                                assert(m < i);
                            }
                        }
                    }
                },
                None => {
                    ignored.push(ts);
                    assert(views(ignored@) =~= views(ig0).push(lp[i as int]));
                    assert forall|j: int| 0 <= j < total implies #[trigger] marks@[j] == exists|m: int|
                        0 <= m < i + 1 && valid_choice(#[trigger] lp[m], total) && parse_unsigned(
                            lp[m],
                            usize::MAX as nat,
                        ) == Some(j as nat) by {
                        if exists|m: int|
                            0 <= m < i + 1 && valid_choice(#[trigger] lp[m], total) && parse_unsigned(
                                lp[m],
                                usize::MAX as nat,
                            ) == Some(j as nat) {
                            let m = choose|m: int|
                                0 <= m < i + 1 && valid_choice(#[trigger] lp[m], total)
                                    && parse_unsigned(lp[m], usize::MAX as nat) == Some(j as nat);
                            assert(m < i);
                        }
                    }
                },
            }
            i = i + 1;
        }
        assert(lp.take(pieces@.len() as int) =~= lp);
    }
    assert(views(ignored@) =~= Seq::<Seq<char>>::empty() || input@.len() > 0);
    let mut chosen: Vec<usize> = Vec::new();
    let mut j: usize = 0;
    while j < total
        invariant
            0 <= j <= total,
            marks@.len() == total,
            forall|a: int, b: int| 0 <= a < b < chosen@.len() ==> #[trigger] chosen@[a] < #[trigger] chosen@[b],
            forall|a: int| 0 <= a < chosen@.len() ==> #[trigger] chosen@[a] < j,
            forall|x: usize| chosen@.contains(x) <==> (x < j && marks@[x as int]),
        decreases total - j,
    {
        let ghost c0 = chosen@;
        if marks[j] {
            chosen.push(j);
            assert forall|x: usize| chosen@.contains(x) <==> (x < j + 1 && marks@[x as int]) by {
                if chosen@.contains(x) {
                    let a = choose|a: int| 0 <= a < chosen@.len() && chosen@[a] == x;
                    if a < c0.len() {
                        assert(c0.contains(x));
                    }
                }
                if x < j + 1 && marks@[x as int] {
                    if x < j {
                        assert(c0.contains(x));
                        let a = choose|a: int| 0 <= a < c0.len() && c0[a] == x;
                        assert(chosen@[a] == x);
                    } else {
                        assert(chosen@[c0.len() as int] == x);
                    }
                }
            }
        } else {
            assert forall|x: usize| chosen@.contains(x) <==> (x < j + 1 && marks@[x as int]) by {
                if chosen@.contains(x) {
                    let a = choose|a: int| 0 <= a < chosen@.len() && chosen@[a] == x;
                    assert(chosen@[a] < j);
                }
            }
        }
        j = j + 1;
    }
    (chosen, ignored)
}

// ---------------------------------------------------------------------------
// Pattern options
// ---------------------------------------------------------------------------
/// The boundary mode a command-line name selects, if it is valid:
/// `strict`, `partial` or `none`; the word-boundary flag selects whole
/// words whatever the name.
pub open spec fn cli_boundary(word_boundary: bool, name: Seq<char>) -> Option<WordBoundaryMode> {
    if word_boundary {
        Some(WordBoundaryMode::WholeWords)
    } else if name == "strict"@ {
        Some(WordBoundaryMode::WholeWords)
    } else if name == "partial"@ {
        Some(WordBoundaryMode::Partial)
    } else if name == "none"@ {
        Some(WordBoundaryMode::NoBoundary)
    } else {
        None
    }
}

/// The hyphen mode a command-line name selects, if it is valid:
/// `boundary` or `joining`.
pub open spec fn cli_hyphen(name: Seq<char>) -> Option<HyphenMode> {
    if name == "boundary"@ {
        Some(HyphenMode::Boundary)
    } else if name == "joining"@ {
        Some(HyphenMode::Joining)
    } else {
        None
    }
}

/// The message for an invalid boundary mode name.
pub open spec fn invalid_boundary_message(name: Seq<char>) -> Seq<char> {
    "Invalid boundary mode '"@ + name + "'. Valid values are: strict, partial, none"@
}

/// The message for an invalid hyphen mode name.
pub open spec fn invalid_hyphen_message() -> Seq<char> {
    "Invalid hyphen mode. Valid values are: boundary, joining"@
}

fn boundary_option(word_boundary: bool, name: &str) -> (r: Option<WordBoundaryMode>)
    ensures
        r == cli_boundary(word_boundary, name@),
{
    if word_boundary || text_eq(name, "strict") {
        Some(WordBoundaryMode::WholeWords)
    } else if text_eq(name, "partial") {
        Some(WordBoundaryMode::Partial)
    } else if text_eq(name, "none") {
        Some(WordBoundaryMode::NoBoundary)
    } else {
        None
    }
}

fn hyphen_option(name: &str) -> (r: Option<HyphenMode>)
    ensures
        r == cli_hyphen(name@),
{
    if text_eq(name, "boundary") {
        Some(HyphenMode::Boundary)
    } else if text_eq(name, "joining") {
        Some(HyphenMode::Joining)
    } else {
        None
    }
}

/// Builds the pattern definitions of a search from its options: one per
/// pattern, regex when the regex flag at its position is set, with the
/// chosen boundary and hyphen modes. With at least one pattern an invalid
/// boundary mode name, then an invalid hyphen mode name, is reported.
pub fn search_definitions(
    patterns: &Vec<String>,
    is_regex: &Vec<bool>,
    boundary_mode: &str,
    word_boundary: bool,
    hyphen_mode: &str,
) -> (r: Result<Vec<PatternDefinition>, SearchError>)
    ensures
        patterns@.len() > 0 && cli_boundary(word_boundary, boundary_mode@) is None ==> (r matches Err(
            SearchError::ConfigError(m),
        ) && m@ == invalid_boundary_message(boundary_mode@)),
        patterns@.len() > 0 && cli_boundary(word_boundary, boundary_mode@) is Some && cli_hyphen(
            hyphen_mode@,
        ) is None ==> (r matches Err(SearchError::ConfigError(m)) && m@ == invalid_hyphen_message()),
        (patterns@.len() == 0 || (cli_boundary(word_boundary, boundary_mode@) is Some && cli_hyphen(
            hyphen_mode@,
        ) is Some)) ==> (r matches Ok(v) && v@.len() == patterns@.len() && forall|i: int|
            0 <= i < v@.len() ==> (#[trigger] v@[i]).text@ == patterns@[i]@ && v@[i].is_regex == (i
                < is_regex@.len() && is_regex@[i]) && Some(v@[i].boundary_mode) == cli_boundary(
                word_boundary,
                boundary_mode@,
            ) && Some(v@[i].hyphen_mode) == cli_hyphen(hyphen_mode@)),
{
    if patterns.len() == 0 {
        return Ok(Vec::new());
    }
    let boundary = match boundary_option(word_boundary, boundary_mode) {
        Some(b) => b,
        None => {
            let a = concat_text("Invalid boundary mode '", boundary_mode);
            return Err(
                SearchError::ConfigError(
                    concat_text(a.as_str(), "'. Valid values are: strict, partial, none"),
                ),
            );
        },
    };
    let hyphen = match hyphen_option(hyphen_mode) {
        Some(h) => h,
        None => {
            return Err(
                SearchError::ConfigError(
                    "Invalid hyphen mode. Valid values are: boundary, joining".to_owned(),
                ),
            );
        },
    };
    let mut defs: Vec<PatternDefinition> = Vec::new();
    let mut i: usize = 0;
    while i < patterns.len()
        invariant
            0 <= i <= patterns@.len(),
            defs@.len() == i,
            Some(boundary) == cli_boundary(word_boundary, boundary_mode@),
            Some(hyphen) == cli_hyphen(hyphen_mode@),
            forall|k: int|
                0 <= k < i ==> (#[trigger] defs@[k]).text@ == patterns@[k]@ && defs@[k].is_regex == (k
                    < is_regex@.len() && is_regex@[k]) && defs@[k].boundary_mode == boundary
                    && defs@[k].hyphen_mode == hyphen,
        decreases patterns@.len() - i,
    {
        let regex = i < is_regex.len() && is_regex[i];
        defs.push(
            PatternDefinition {
                text: copy_string(&patterns[i]),
                is_regex: regex,
                boundary_mode: boundary,
                hyphen_mode: hyphen,
            },
        );
        i = i + 1;
    }
    Ok(defs)
}

/// Parses a comma-separated list of extensions, each trimmed.
pub fn parse_extensions(e: &str) -> (r: Vec<String>)
    ensures
        views(r@) == list_pieces(e@),
{
    let cs = chars_of(e);
    let pieces = split_chars(&cs, ',');
    let ghost lp = list_pieces(e@);
    let mut r: Vec<String> = Vec::new();
    let mut i: usize = 0;
    while i < pieces.len()
        invariant
            0 <= i <= pieces@.len(),
            lp == list_pieces(e@),
            lp.len() == pieces@.len(),
            forall|m: int| 0 <= m < pieces@.len() ==> lp[m] == trim_seq(#[trigger] pieces@[m]@),
            views(r@) == lp.take(i as int),
        decreases pieces@.len() - i,
    {
        let pc = chars_of(pieces[i].as_str());
        let t = trim_chars(&pc);
        let ghost r0 = r@;
        r.push(string_from_chars(&t));
        assert(views(r@) =~= views(r0).push(lp[i as int]));
        assert(lp.take(i + 1) =~= lp.take(i as int).push(lp[i as int]));
        i = i + 1;
    }
    assert(lp.take(lp.len() as int) =~= lp);
    r
}

// ---------------------------------------------------------------------------
// Line offsets
// ---------------------------------------------------------------------------
/// The byte offsets just after each newline of `t`, in order.
pub open spec fn newline_ends(t: Seq<char>) -> Seq<usize>
    decreases t.len(),
{
    if t.len() == 0 {
        seq![]
    } else if t.last() == '\n' {
        newline_ends(t.drop_last()).push(crate::text::byte_len(t) as usize)
    } else {
        newline_ends(t.drop_last())
    }
}

/// The byte offset where each line starts, followed by the length of the
/// text.
pub open spec fn line_offsets_spec(t: Seq<char>) -> Seq<usize> {
    seq![0usize] + newline_ends(t) + seq![crate::text::byte_len(t) as usize]
}

/// Computes the line start offsets of a text (see [`line_offsets_spec`]).
pub fn line_offsets(content: &str) -> (r: Vec<usize>)
    ensures
        r@ == line_offsets_spec(content@),
{
    let t = chars_of(content);
    // The UTF-8 length of the text fits in a usize.
    let _byte_len = content.as_bytes().len();
    let offs = crate::text::byte_offsets(&t);
    let mut ends: Vec<usize> = Vec::new();
    let mut i: usize = 0;
    assert(t@.take(0) =~= Seq::<char>::empty());
    while i < t.len()
        invariant
            0 <= i <= t@.len(),
            offs@.len() == t@.len() + 1,
            forall|k: int| 0 <= k <= t@.len() ==> #[trigger] offs@[k] == crate::text::byte_offset(t@, k),
            ends@ == newline_ends(t@.take(i as int)),
        decreases t@.len() - i,
    {
        assert(t@.take(i + 1).drop_last() =~= t@.take(i as int));
        assert(t@.take(i + 1).last() == t@[i as int]);
        if t[i] == '\n' {
            ends.push(offs[i + 1]);
        }
        i = i + 1;
    }
    assert(t@.take(t@.len() as int) =~= t@);
    let mut r: Vec<usize> = Vec::new();
    r.push(0);
    let mut k: usize = 0;
    while k < ends.len()
        invariant
            0 <= k <= ends@.len(),
            r@ == seq![0usize] + ends@.take(k as int),
        decreases ends@.len() - k,
    {
        r.push(ends[k]);
        assert(ends@.take(k + 1) =~= ends@.take(k as int).push(ends@[k as int]));
        k = k + 1;
    }
    assert(ends@.take(ends@.len() as int) =~= ends@);
    r.push(offs[t.len()]);
    assert(t@.take(t@.len() as int) =~= t@);
    r
}

/// The byte range of a match within the whole text: its line's start
/// offset added to its offsets within the line; `None` when the line does
/// not exist or the sum does not fit.
pub open spec fn absolute_range(offsets: Seq<usize>, line: usize, start: usize, end: usize) -> Option<(usize, usize)> {
    if 1 <= line && line <= offsets.len() && offsets[line - 1] + start <= usize::MAX
        && offsets[line - 1] + end <= usize::MAX {
        Some(((offsets[line - 1] + start) as usize, (offsets[line - 1] + end) as usize))
    } else {
        None
    }
}

/// Computes the byte range of a match within the whole text (see
/// [`absolute_range`]).
pub fn absolute_match_range(offsets: &Vec<usize>, line: usize, start: usize, end: usize) -> (r: Option<(usize, usize)>)
    ensures
        r == absolute_range(offsets@, line, start, end),
{
    if line == 0 || line > offsets.len() {
        return None;
    }
    let base = offsets[line - 1];
    if base > usize::MAX - start || base > usize::MAX - end {
        return None;
    }
    Some((base + start, base + end))
}

/// The description recorded for a replacement operation: the first
/// pattern and its replacement, or the time of the operation.
pub open spec fn undo_description_spec(patterns: Seq<crate::replace::ReplacementPattern>, timestamp: u64) -> Seq<char> {
    if patterns.len() > 0 {
        "Replace '"@ + patterns[0].definition.text@ + "' with '"@ + patterns[0].replacement_text@
            + "'"@
    } else {
        "Replacement operation at "@ + decimal(timestamp as nat)
    }
}

/// Describes a replacement operation (see [`undo_description_spec`]).
pub fn undo_description(config: &crate::replace::ReplacementConfig, timestamp: u64) -> (r: String)
    ensures
        r@ == undo_description_spec(config.patterns@, timestamp),
{
    if config.patterns.len() > 0 {
        let p = &config.patterns[0];
        let a = concat_text("Replace '", p.definition.text.as_str());
        let b = concat_text(a.as_str(), "' with '");
        let c = concat_text(b.as_str(), p.replacement_text.as_str());
        concat_text(c.as_str(), "'")
    } else {
        let d = u64_to_decimal(timestamp);
        concat_text("Replacement operation at ", d.as_str())
    }
}

// ---------------------------------------------------------------------------
// Previewing selected hunks
// ---------------------------------------------------------------------------
/// Putting the original lines of `h` back over the lines it added, as the
/// preview does: the lines before its (1-based) start, its original lines,
/// then the lines after the ones it added, each part clipped to the text.
pub open spec fn preview_splice(lines: Seq<Seq<char>>, h: DiffHunk) -> Seq<Seq<char>> {
    let s = h.new_start_line - 1;
    let e = s + h.new_line_count;
    let a = if s <= lines.len() {
        s
    } else {
        lines.len() as int
    };
    let b = if e <= lines.len() {
        e
    } else {
        lines.len() as int
    };
    lines.take(a) + views(h.original_lines@) + lines.skip(b)
}

/// The preview text after putting back the selected hunks in the order
/// given; indices past the hunks are passed over.
pub open spec fn preview_fold(text: Seq<char>, hunks: Seq<DiffHunk>, indices: Seq<usize>) -> Seq<char>
    decreases indices.len(),
{
    if indices.len() == 0 {
        text
    } else {
        let t = preview_fold(text, hunks, indices.drop_last());
        let i = indices.last() as int;
        if i < hunks.len() {
            join_lines(preview_splice(lines_of(t), hunks[i]))
        } else {
            t
        }
    }
}

/// Every selected hunk that exists has a 1-based start, and its end does
/// not run past the machine's integers.
pub open spec fn preview_selectable(hunks: Seq<DiffHunk>, indices: Seq<usize>) -> bool {
    forall|k: int|
        0 <= k < indices.len() && indices[k] < hunks.len() ==> (#[trigger] hunks[indices[k] as int]).new_start_line
            >= 1 && hunks[indices[k] as int].new_start_line - 1 + hunks[indices[k] as int].new_line_count
            <= usize::MAX
}

/// One step of the preview: splices `h` into the lines of `text`.
fn preview_one(text: &String, h: &DiffHunk) -> (r: String)
    requires
        h.new_start_line >= 1,
        h.new_start_line - 1 + h.new_line_count <= usize::MAX,
    ensures
        r@ == join_lines(preview_splice(lines_of(text@), *h)),
{
    let cs = chars_of(text.as_str());
    let lines = split_lines(&cs);
    let ghost lv = views(lines@);
    let n = lines.len();
    let s = h.new_start_line - 1;
    let e = s + h.new_line_count;
    let a = if s <= n {
        s
    } else {
        n
    };
    let b = if e <= n {
        e
    } else {
        n
    };
    let mut out: Vec<String> = Vec::new();
    let mut j: usize = 0;
    while j < a
        invariant
            a <= n,
            n == lines@.len(),
            lv == views(lines@),
            0 <= j <= a,
            views(out@) == lv.take(j as int),
        decreases a - j,
    {
        let ghost before = out@;
        out.push(copy_string(&lines[j]));
        assert(views(out@) =~= views(before).push(lv[j as int]));
        assert(views(out@) =~= lv.take(j + 1));
        j = j + 1;
    }
    let mut k: usize = 0;
    let ghost mid = views(out@);
    while k < h.original_lines.len()
        invariant
            0 <= k <= h.original_lines@.len(),
            views(out@) == mid + views(h.original_lines@).take(k as int),
        decreases h.original_lines@.len() - k,
    {
        let ghost before = out@;
        out.push(copy_string(&h.original_lines[k]));
        assert(views(out@) =~= views(before).push(h.original_lines@[k as int]@));
        assert(views(out@) =~= mid + views(h.original_lines@).take(k + 1));
        k = k + 1;
    }
    assert(views(h.original_lines@).take(h.original_lines@.len() as int) =~= views(h.original_lines@));
    let ghost head = views(out@);
    let mut m: usize = b;
    while m < n
        invariant
            b <= m <= n,
            n == lines@.len(),
            lv == views(lines@),
            views(out@) == head + lv.subrange(b as int, m as int),
        decreases n - m,
    {
        let ghost before = out@;
        out.push(copy_string(&lines[m]));
        assert(views(out@) =~= views(before).push(lv[m as int]));
        assert(views(out@) =~= head + lv.subrange(b as int, m + 1));
        m = m + 1;
    }
    assert(lv.subrange(b as int, n as int) =~= lv.skip(b as int));
    assert(lv == lines_of(text@));
    assert(mid == lv.take(a as int));
    assert(views(out@) == lv.take(a as int) + views(h.original_lines@) + lv.skip(b as int));
    assert(views(out@) =~= preview_splice(lines_of(text@), *h));
    join_with_newlines(&out)
}

/// The text shown as the preview of putting back the selected hunks on
/// `current` (see [`preview_fold`]).
pub fn preview_hunks(current: &str, hunks: &Vec<DiffHunk>, indices: &Vec<usize>) -> (r: String)
    requires
        preview_selectable(hunks@, indices@),
    ensures
        r@ == preview_fold(current@, hunks@, indices@),
{
    let mut text = crate::text::concat_text(current, "");
    proof {
        reveal_strlit("");
    }
    assert(text@ =~= current@);
    let mut i: usize = 0;
    while i < indices.len()
        invariant
            0 <= i <= indices@.len(),
            preview_selectable(hunks@, indices@),
            text@ == preview_fold(current@, hunks@, indices@.take(i as int)),
        decreases indices@.len() - i,
    {
        let idx = indices[i];
        assert(indices@.take(i + 1).drop_last() =~= indices@.take(i as int));
        if idx < hunks.len() {
            assert(hunks@[idx as int] == hunks@[indices@[i as int] as int]);
            text = preview_one(&text, &hunks[idx]);
        }
        i = i + 1;
    }
    assert(indices@.take(indices@.len() as int) =~= indices@);
    text
}

// ---------------------------------------------------------------------------
// Undo records of replacement operations
// ---------------------------------------------------------------------------
/// The sum of the sizes.
pub open spec fn size_sum(sizes: Seq<u64>) -> int
    decreases sizes.len(),
{
    if sizes.len() == 0 {
        0
    } else {
        size_sum(sizes.drop_last()) + sizes.last()
    }
}

/// The undo record of a replacement operation at `timestamp`: described
/// by its first pattern (see [`undo_description_spec`]), with the backup
/// pairs, the total size of the backups (`backup_sizes`), one file per
/// backup, the configuration's dry-run flag, and the diffs.
pub fn build_undo_info(
    timestamp: u64,
    config: &crate::replace::ReplacementConfig,
    backups: Vec<(crate::undo::UndoFileReference, crate::undo::UndoFileReference)>,
    backup_sizes: &Vec<u64>,
    file_diffs: Vec<crate::undo::FileDiff>,
) -> (u: crate::undo::UndoInfo)
    requires
        size_sum(backup_sizes@) <= u64::MAX,
    ensures
        u.timestamp == timestamp,
        u.description@ == undo_description_spec(config.patterns@, timestamp),
        u.backups@ == backups@,
        u.total_size == size_sum(backup_sizes@),
        u.file_count == backups@.len(),
        u.dry_run == config.dry_run,
        u.file_diffs@ == file_diffs@,
{
    let description = undo_description(config, timestamp);
    let mut total: u64 = 0;
    let mut i: usize = 0;
    while i < backup_sizes.len()
        invariant
            0 <= i <= backup_sizes@.len(),
            total == size_sum(backup_sizes@.take(i as int)),
            size_sum(backup_sizes@) <= u64::MAX,
        decreases backup_sizes@.len() - i,
    {
        proof {
            assert(backup_sizes@.take(i + 1).drop_last() =~= backup_sizes@.take(i as int));
            lemma_size_sum_prefix(backup_sizes@, i + 1);
        }
        total = total + backup_sizes[i];
        i = i + 1;
    }
    assert(backup_sizes@.take(backup_sizes@.len() as int) =~= backup_sizes@);
    let n = backups.len();
    crate::undo::UndoInfo {
        timestamp,
        description,
        backups,
        total_size: total,
        file_count: n,
        dry_run: config.dry_run,
        file_diffs,
    }
}

/// A prefix sums to no more than the whole.
proof fn lemma_size_sum_prefix(s: Seq<u64>, m: int)
    requires
        0 <= m <= s.len(),
    ensures
        size_sum(s.take(m)) <= size_sum(s),
    decreases s.len() - m,
{
    if m < s.len() {
        assert(s.take(m + 1).drop_last() =~= s.take(m));
        lemma_size_sum_prefix(s, m + 1);
    } else {
        assert(s.take(m) =~= s);
    }
}

} // verus!
