//! SQL front end: a prefix-based parser for the five supported statements.
//! It upper-cases a copy of the input, dispatches on the leading keyword,
//! and splits on literal characters; no expressions, joins or predicate
//! evaluation.

use vstd::prelude::*;

use crate::catalog::{lemma_split_len, lemma_split_piece, spec_split, views_of};

use crate::text::{bytes_to_string, parse_u64, string_to_bytes};
use crate::types::ColumnType;
use vstd::utf8::encode_utf8;

verus! {

/// SQL result type.
pub type SqlResult<T> = Result<T, SqlError>;

/// SQL error types.
#[derive(Debug, Clone)]
pub enum SqlError {
    /// The statement's shape is not recognized.
    SyntaxError(String),
    /// A piece of the statement cannot be read.
    ParseError(String),
}

/// A parsed SQL statement.
#[derive(Debug, Clone)]
pub enum Statement {
    /// CREATE TABLE.
    CreateTable(CreateTableStmt),
    /// INSERT.
    Insert(InsertStmt),
    /// SELECT.
    Select(SelectStmt),
    /// UPDATE.
    Update(UpdateStmt),
    /// DELETE.
    Delete(DeleteStmt),
}

/// A CREATE TABLE statement.
#[derive(Debug, Clone)]
pub struct CreateTableStmt {
    /// The new table's name.
    pub table_name: String,
    /// Column definitions in declaration order.
    pub columns: Vec<ColumnDef>,
}

/// One column definition of a CREATE TABLE statement.
#[derive(Debug, Clone)]
pub struct ColumnDef {
    /// Column name.
    pub name: String,
    /// Column data type.
    pub data_type: ColumnType,
    /// Whether NULL is allowed: every column unless it says NOT NULL.
    pub nullable: bool,
}

/// An INSERT statement.
#[derive(Debug, Clone)]
pub struct InsertStmt {
    /// The target table.
    pub table_name: String,
    /// The value literals, comma-separated in the input.
    pub values: Vec<String>,
}

/// A SELECT statement.
#[derive(Debug, Clone)]
pub struct SelectStmt {
    /// The table selected from.
    pub from: String,
    /// The text after WHERE, if any; not evaluated.
    pub where_clause: Option<String>,
}

/// An UPDATE statement.
#[derive(Debug, Clone)]
pub struct UpdateStmt {
    /// The target table.
    pub table_name: String,
    /// The column-to-literal assignments.
    pub set: Vec<(String, String)>,
    /// The text after WHERE, if any; not evaluated.
    pub where_clause: Option<String>,
}

/// A DELETE statement.
#[derive(Debug, Clone)]
pub struct DeleteStmt {
    /// The target table.
    pub table_name: String,
    /// The text after WHERE, if any; not evaluated.
    pub where_clause: Option<String>,
}

/// A byte upper-cased: ASCII letters to their capitals, all else kept.
pub open spec fn spec_upper_byte(b: u8) -> u8 {
    if 97 <= b <= 122 {
        (b - 32) as u8
    } else {
        b
    }
}

/// A byte string upper-cased bytewise.
pub open spec fn spec_upper(s: Seq<u8>) -> Seq<u8> {
    s.map_values(|b: u8| spec_upper_byte(b))
}

/// Whether a byte is ASCII whitespace.
pub open spec fn spec_is_space(b: u8) -> bool {
    b == 32 || b == 9 || b == 10 || b == 13
}

/// The first position of byte `b` in `s`, if any.
pub open spec fn spec_find_byte(s: Seq<u8>, b: u8) -> Option<int>
    decreases s.len(),
{
    if s.len() == 0 {
        None
    } else if s[0] == b {
        Some(0)
    } else {
        match spec_find_byte(s.drop_first(), b) {
            Some(p) => Some(p + 1),
            None => None,
        }
    }
}

/// The last position of byte `b` in `s`, if any.
pub open spec fn spec_rfind_byte(s: Seq<u8>, b: u8) -> Option<int>
    decreases s.len(),
{
    if s.len() == 0 {
        None
    } else if s.last() == b {
        Some(s.len() - 1)
    } else {
        spec_rfind_byte(s.drop_last(), b)
    }
}

/// Whether `pat` occurs contiguously in `s`.
pub open spec fn spec_has_sub(s: Seq<u8>, pat: Seq<u8>) -> bool {
    exists|p: int| 0 <= p && p + pat.len() <= s.len() && #[trigger] s.subrange(p, p + pat.len()) == pat
}

/// The first position where `pat` occurs in `s`, if any.
pub open spec fn spec_find_sub(s: Seq<u8>, pat: Seq<u8>) -> Option<int>
    decreases s.len(),
{
    if pat.len() > s.len() {
        None
    } else if s.subrange(0, pat.len() as int) == pat {
        Some(0)
    } else if s.len() == 0 {
        None
    } else {
        match spec_find_sub(s.drop_first(), pat) {
            Some(p) => Some(p + 1),
            None => None,
        }
    }
}

/// A prefix free of `pat` puts the first occurrence right behind it.
pub proof fn lemma_find_sub_at(s: Seq<u8>, pat: Seq<u8>, p: int)
    requires
        0 <= p,
        p + pat.len() <= s.len(),
        s.subrange(p, p + pat.len()) == pat,
        forall|j: int| 0 <= j < p ==> #[trigger] s.subrange(j, j + pat.len()) != pat,
    ensures
        spec_find_sub(s, pat) == Some(p),
    decreases p,
{
    if p == 0 {
        assert(s.subrange(0, pat.len() as int) == pat);
    } else {
        assert(s.subrange(0int, 0int + pat.len()) != pat);
        assert(s.subrange(0, pat.len() as int) != pat);
        assert forall|j: int| 0 <= j < p - 1 implies #[trigger] s.drop_first().subrange(
            j,
            j + pat.len(),
        ) != pat by {
            assert(s.drop_first().subrange(j, j + pat.len()) =~= s.subrange(
                j + 1,
                j + 1 + pat.len(),
            ));
        }
        assert(s.drop_first().subrange(p - 1, p - 1 + pat.len()) =~= s.subrange(
            p,
            p + pat.len(),
        ));
        lemma_find_sub_at(s.drop_first(), pat, p - 1);
    }
}

/// A string without `pat` has no first occurrence.
pub proof fn lemma_find_sub_absent(s: Seq<u8>, pat: Seq<u8>)
    requires
        forall|j: int|
            0 <= j && j + pat.len() <= s.len() ==> #[trigger] s.subrange(j, j + pat.len()) != pat,
    ensures
        spec_find_sub(s, pat) is None,
    decreases s.len(),
{
    if pat.len() == 0 {
        assert(s.subrange(0int, 0int + pat.len()) =~= pat);
        assert(false);
    } else if pat.len() <= s.len() {
        assert(s.subrange(0int, 0int + pat.len()) != pat);
        assert(s.subrange(0, pat.len() as int) != pat);
        assert forall|j: int|
            0 <= j && j + pat.len() <= s.drop_first().len() implies #[trigger] s.drop_first().subrange(j, j + pat.len()) != pat by {
            assert(s.drop_first().subrange(j, j + pat.len()) =~= s.subrange(
                j + 1,
                j + 1 + pat.len(),
            ));
        }
        lemma_find_sub_absent(s.drop_first(), pat);
    }
}

/// A prefix free of `b` puts the first occurrence right behind it.
pub proof fn lemma_find_byte_at(s: Seq<u8>, b: u8, p: int)
    requires
        0 <= p < s.len(),
        s[p] == b,
        forall|k: int| 0 <= k < p ==> s[k] != b,
    ensures
        spec_find_byte(s, b) == Some(p),
    decreases p,
{
    if p > 0 {
        lemma_find_byte_at(s.drop_first(), b, p - 1);
    }
}

/// A string without `b` has no first occurrence.
pub proof fn lemma_find_byte_absent(s: Seq<u8>, b: u8)
    requires
        forall|k: int| 0 <= k < s.len() ==> s[k] != b,
    ensures
        spec_find_byte(s, b) is None,
    decreases s.len(),
{
    if s.len() > 0 {
        lemma_find_byte_absent(s.drop_first(), b);
    }
}

/// A suffix free of `b` puts the last occurrence right before it.
pub proof fn lemma_rfind_byte_at(s: Seq<u8>, b: u8, p: int)
    requires
        0 <= p < s.len(),
        s[p] == b,
        forall|k: int| p < k < s.len() ==> s[k] != b,
    ensures
        spec_rfind_byte(s, b) == Some(p),
    decreases s.len(),
{
    if p < s.len() - 1 {
        lemma_rfind_byte_at(s.drop_last(), b, p);
    }
}

/// A string without `b` has no last occurrence.
pub proof fn lemma_rfind_byte_absent(s: Seq<u8>, b: u8)
    requires
        forall|k: int| 0 <= k < s.len() ==> s[k] != b,
    ensures
        spec_rfind_byte(s, b) is None,
    decreases s.len(),
{
    if s.len() > 0 {
        lemma_rfind_byte_absent(s.drop_last(), b);
    }
}

/// The whitespace-separated words of a byte string, in order, each
/// nonempty.
pub open spec fn spec_words(s: Seq<u8>) -> Seq<Seq<u8>>
    decreases s.len(),
{
    if s.len() == 0 {
        Seq::empty()
    } else if spec_is_space(s[0]) {
        spec_words(s.drop_first())
    } else {
        let rest = spec_words(s.drop_first());
        if s.len() > 1 && !spec_is_space(s[1]) {
            seq![seq![s[0]] + rest[0]] + rest.drop_first()
        } else {
            seq![seq![s[0]]] + rest
        }
    }
}

/// The position of the first whitespace byte, or the length when none.
pub open spec fn spec_first_space(s: Seq<u8>) -> int
    decreases s.len(),
{
    if s.len() == 0 {
        0
    } else if spec_is_space(s[0]) {
        0
    } else {
        1 + spec_first_space(s.drop_first())
    }
}

/// A space behind a space-free prefix is the first one.
pub proof fn lemma_first_space_at(s: Seq<u8>, i: int)
    requires
        0 <= i <= s.len(),
        forall|k: int| 0 <= k < i ==> !spec_is_space(#[trigger] s[k]),
        i < s.len() ==> spec_is_space(s[i]),
    ensures
        spec_first_space(s) == i,
    decreases i,
{
    if i > 0 {
        lemma_first_space_at(s.drop_first(), i - 1);
    }
}

/// A space-free nonempty string is one word.
pub proof fn lemma_words_single(c: Seq<u8>)
    requires
        c.len() > 0,
        forall|k: int| 0 <= k < c.len() ==> !spec_is_space(#[trigger] c[k]),
    ensures
        spec_words(c) == seq![c],
    decreases c.len(),
{
    if c.len() > 1 {
        lemma_words_single(c.drop_first());
        assert(!spec_is_space(c[0]));
        assert(!spec_is_space(c[1]));
        let rest = spec_words(c.drop_first());
        assert(rest == seq![c.drop_first()]);
        assert(spec_words(c) == seq![seq![c[0]] + rest[0]] + rest.drop_first());
        assert(rest.drop_first() =~= Seq::<Seq<u8>>::empty());
        assert(seq![c[0]] + rest[0] =~= c);
        assert(spec_words(c) =~~= seq![c]);
    } else {
        assert(!spec_is_space(c[0]));
        assert(c.drop_first().len() == 0);
        assert(spec_words(c.drop_first()) == Seq::<Seq<u8>>::empty());
        assert(spec_words(c) == seq![seq![c[0]]] + spec_words(c.drop_first()));
        assert(seq![c[0]] =~= c);
        assert(spec_words(c) =~~= seq![c]);
    }
}

/// A space ends the first word; the rest splits on its own.
pub proof fn lemma_words_piece(c: Seq<u8>, d: u8, rest: Seq<u8>)
    requires
        c.len() > 0,
        forall|k: int| 0 <= k < c.len() ==> !spec_is_space(#[trigger] c[k]),
        spec_is_space(d),
    ensures
        spec_words(c + seq![d] + rest) == seq![c] + spec_words(rest),
    decreases c.len(),
{
    let whole = c + seq![d] + rest;
    assert(whole[0] == c[0]);
    assert(!spec_is_space(whole[0]));
    if c.len() == 1 {
        assert(whole.len() > 1 && whole[1] == d);
        assert(whole.drop_first() =~= seq![d] + rest);
        assert(spec_words(seq![d] + rest) == spec_words((seq![d] + rest).drop_first()));
        assert((seq![d] + rest).drop_first() =~= rest);
        assert(spec_words(whole) =~~= seq![c] + spec_words(rest)) by {
            assert(seq![whole[0]] =~= c);
        }
    } else {
        lemma_words_piece(c.drop_first(), d, rest);
        assert(whole.drop_first() =~= c.drop_first() + seq![d] + rest);
        assert(whole[1] == c[1]);
        assert(!spec_is_space(whole[1]));
        let sub = seq![c.drop_first()] + spec_words(rest);
        assert(spec_words(whole.drop_first()) == sub);
        assert(spec_words(whole) == seq![seq![whole[0]] + sub[0]] + sub.drop_first());
        assert(seq![whole[0]] + sub[0] =~= c);
        assert(sub.drop_first() =~= spec_words(rest));
        assert(spec_words(whole) =~~= seq![c] + spec_words(rest));
    }
}

/// A trimmed nonempty string starts with a non-space byte.
pub proof fn lemma_trim_first_nonspace(s: Seq<u8>)
    ensures
        spec_trim(s).len() > 0 ==> !spec_is_space(spec_trim(s)[0]),
{
    lemma_trim_front_first(s);
    lemma_trim_back_prefix(spec_trim_front(s));
}

/// The front trim leaves a string whose first byte is no space.
pub proof fn lemma_trim_front_first(s: Seq<u8>)
    ensures
        spec_trim_front(s).len() > 0 ==> !spec_is_space(spec_trim_front(s)[0]),
    decreases s.len(),
{
    if s.len() > 0 && spec_is_space(s[0]) {
        lemma_trim_front_first(s.drop_first());
    }
}

/// The back trim keeps a prefix of its input.
pub proof fn lemma_trim_back_prefix(s: Seq<u8>)
    ensures
        spec_trim_back(s).len() <= s.len(),
        forall|k: int| 0 <= k < spec_trim_back(s).len() ==> #[trigger] spec_trim_back(s)[k] == s[k],
    decreases s.len(),
{
    if s.len() > 0 && spec_is_space(s.last()) {
        lemma_trim_back_prefix(s.drop_last());
    }
}

/// A nonempty string headed by a non-space byte has at least one word.
pub proof fn lemma_words_nonempty(s: Seq<u8>)
    requires
        s.len() > 0,
        !spec_is_space(s[0]),
    ensures
        spec_words(s).len() > 0,
{
}

/// A byte string with its leading whitespace removed.
pub open spec fn spec_trim_front(s: Seq<u8>) -> Seq<u8>
    decreases s.len(),
{
    if s.len() > 0 && spec_is_space(s[0]) {
        spec_trim_front(s.drop_first())
    } else {
        s
    }
}

/// A byte string with its trailing whitespace removed.
pub open spec fn spec_trim_back(s: Seq<u8>) -> Seq<u8>
    decreases s.len(),
{
    if s.len() > 0 && spec_is_space(s.last()) {
        spec_trim_back(s.drop_last())
    } else {
        s
    }
}

/// A byte string with surrounding whitespace removed.
pub open spec fn spec_trim(s: Seq<u8>) -> Seq<u8> {
    spec_trim_back(spec_trim_front(s))
}

/// Whether a byte string starts with a prefix.
pub open spec fn spec_starts_with(s: Seq<u8>, prefix: Seq<u8>) -> bool {
    prefix.len() <= s.len() && s.subrange(0, prefix.len() as int) == prefix
}

/// Upper-cases a byte string.
fn upper_bytes(s: &[u8]) -> (r: Vec<u8>)
    ensures
        r@ == spec_upper(s@),
{
    let mut out: Vec<u8> = Vec::new();
    let n = s.len();
    let mut i: usize = 0;
    while i < n
        invariant
            0 <= i <= n,
            n == s@.len(),
            out@ =~= spec_upper(s@).take(i as int),
        decreases n - i,
    {
        let b = s[i];
        if 97 <= b && b <= 122 {
            out.push(b - 32);
        } else {
            out.push(b);
        }
        proof {
            assert(out@ =~= spec_upper(s@).take(i + 1));
        }
        i = i + 1;
    }
    proof {
        assert(out@ =~= spec_upper(s@));
    }
    out
}

/// The bounds of a byte string with leading and trailing ASCII whitespace
/// removed: start position and end position.
fn trim_bounds(s: &[u8]) -> (r: (usize, usize))
    ensures
        r.0 <= r.1 <= s@.len(),
        s@.subrange(r.0 as int, r.1 as int) == spec_trim(s@),
{
    let n = s.len();
    let mut start: usize = 0;
    proof {
        assert(s@.skip(0) =~= s@);
    }
    while start < n && (s[start] == 32 || s[start] == 9 || s[start] == 10 || s[start] == 13)
        invariant
            0 <= start <= n,
            n == s@.len(),
            spec_trim_front(s@.skip(start as int)) == spec_trim_front(s@),
        decreases n - start,
    {
        proof {
            assert(s@.skip(start as int)[0] == s@[start as int]);
            assert(s@.skip(start as int).drop_first() =~= s@.skip(start as int + 1));
        }
        start = start + 1;
    }
    proof {
        if start < n {
            assert(s@.skip(start as int)[0] == s@[start as int]);
            assert(!spec_is_space(s@.skip(start as int)[0]));
        } else {
            assert(s@.skip(start as int) =~= Seq::<u8>::empty());
        }
        assert(spec_trim_front(s@) == s@.skip(start as int));
    }
    let mut end: usize = n;
    while end > start && (s[end - 1] == 32 || s[end - 1] == 9 || s[end - 1] == 10 || s[end - 1]
        == 13)
        invariant
            start <= end <= n,
            n == s@.len(),
            spec_trim_front(s@) == s@.skip(start as int),
            spec_trim_back(s@.subrange(start as int, end as int)) == spec_trim_back(
                s@.skip(start as int),
            ),
        decreases end,
    {
        proof {
            let piece = s@.subrange(start as int, end as int);
            assert(piece.last() == s@[end - 1]);
            assert(piece.drop_last() =~= s@.subrange(start as int, end as int - 1));
        }
        end = end - 1;
    }
    proof {
        let piece = s@.subrange(start as int, end as int);
        if end > start {
            assert(piece.last() == s@[end - 1]);
            assert(!spec_is_space(piece.last()));
        } else {
            assert(piece =~= Seq::<u8>::empty());
        }
        assert(spec_trim_back(piece) == piece);
        assert(s@.subrange(start as int, end as int) == spec_trim(s@));
    }
    (start, end)
}

/// A copy of a byte string with surrounding ASCII whitespace removed.
fn trim_bytes(s: &[u8]) -> (r: Vec<u8>)
    ensures
        exists|a: int, b: int|
            0 <= a <= b <= s@.len() && r@ == s@.subrange(a, b),
        r@ == spec_trim(s@),
{
    let (a, b) = trim_bounds(s);
    let r = vstd::slice::slice_to_vec(vstd::slice::slice_subrange(s, a, b));
    proof {
        assert(r@ == s@.subrange(a as int, b as int));
    }
    r
}

/// Whether `s` starts with `prefix`.
fn starts_with(s: &[u8], prefix: &[u8]) -> (r: bool)
    ensures
        r == (prefix@.len() <= s@.len() && s@.subrange(0, prefix@.len() as int) =~= prefix@),
{
    let np = prefix.len();
    if np > s.len() {
        return false;
    }
    let head = vstd::slice::slice_subrange(s, 0, np);
    crate::vfs::bytes_eq(head, prefix)
}

/// The first position where `pat` occurs in `s`, if any.
fn find_sub(s: &[u8], pat: &[u8]) -> (r: Option<usize>)
    ensures
        r matches Some(p) ==> p + pat@.len() <= s@.len() && s@.subrange(
            p as int,
            p + pat@.len(),
        ) =~= pat@,
        r is Some ==> spec_has_sub(s@, pat@),
        r is None ==> !spec_has_sub(s@, pat@),
        r matches Some(p) ==> spec_find_sub(s@, pat@) == Some(p as int),
        r is None ==> spec_find_sub(s@, pat@) is None,
{
    let n = s.len();
    let np = pat.len();
    if np > n {
        return None;
    }
    if np == 0 {
        proof {
            assert(s@.subrange(0, 0) =~= pat@);
            assert(s@.subrange(0, 0 + pat@.len() as int) == pat@);
            lemma_find_sub_at(s@, pat@, 0);
        }
        return Some(0);
    }
    let mut i: usize = 0;
    while i <= n - np
        invariant
            0 <= i <= n - np + 1,
            1 <= np <= n,
            n == s@.len(),
            np == pat@.len(),
            forall|p: int| 0 <= p < i ==> #[trigger] s@.subrange(p, p + pat@.len()) != pat@,
        decreases n - np - i + 1,
    {
        let piece = vstd::slice::slice_subrange(s, i, i + np);
        if crate::vfs::bytes_eq(piece, pat) {
            proof {
                assert(s@.subrange(i as int, i + pat@.len()) == pat@);
                lemma_find_sub_at(s@, pat@, i as int);
            }
            return Some(i);
        }
        i = i + 1;
    }
    proof {
        assert forall|j: int|
            0 <= j && j + pat@.len() <= s@.len() implies #[trigger] s@.subrange(
            j,
            j + pat@.len(),
        ) != pat@ by {}
        lemma_find_sub_absent(s@, pat@);
    }
    None
}

/// The first position of byte `b` in `s`, if any.
fn find_byte(s: &[u8], b: u8) -> (r: Option<usize>)
    ensures
        r matches Some(p) ==> p < s@.len() && s@[p as int] == b,
        r matches Some(p) ==> spec_find_byte(s@, b) == Some(p as int),
        r is None ==> spec_find_byte(s@, b) is None,
{
    let n = s.len();
    let mut i: usize = 0;
    while i < n
        invariant
            0 <= i <= n,
            n == s@.len(),
            forall|k: int| 0 <= k < i ==> s@[k] != b,
        decreases n - i,
    {
        if s[i] == b {
            proof {
                lemma_find_byte_at(s@, b, i as int);
            }
            return Some(i);
        }
        i = i + 1;
    }
    proof {
        lemma_find_byte_absent(s@, b);
    }
    None
}

/// The last position of byte `b` in `s`, if any.
fn rfind_byte(s: &[u8], b: u8) -> (r: Option<usize>)
    ensures
        r matches Some(p) ==> p < s@.len() && s@[p as int] == b,
        r matches Some(p) ==> spec_rfind_byte(s@, b) == Some(p as int),
        r is None ==> spec_rfind_byte(s@, b) is None,
{
    let n = s.len();
    let mut i: usize = n;
    while i > 0
        invariant
            0 <= i <= n,
            n == s@.len(),
            forall|k: int| i <= k < n ==> s@[k] != b,
        decreases i,
    {
        if s[i - 1] == b {
            proof {
                lemma_rfind_byte_at(s@, b, i as int - 1);
            }
            return Some(i - 1);
        }
        i = i - 1;
    }
    proof {
        lemma_rfind_byte_absent(s@, b);
    }
    None
}

/// Splits a byte string at a delimiter byte.
fn split_byte(s: &[u8], delim: u8) -> (r: Vec<Vec<u8>>)
    ensures
        r@.len() >= 1,
        views_of(r@) == spec_split(s@, delim),
{
    let mut out: Vec<Vec<u8>> = Vec::new();
    let mut cur: Vec<u8> = Vec::new();
    let n = s.len();
    let mut i: usize = 0;
    proof {
        lemma_split_len(s@, delim);
        assert(s@.skip(0) =~= s@);
        assert(views_of(out@) + seq![cur@ + spec_split(s@, delim)[0]] + spec_split(
            s@,
            delim,
        ).drop_first() =~= spec_split(s@, delim));
    }
    while i < n
        invariant
            0 <= i <= n,
            n == s@.len(),
            spec_split(s@.skip(i as int), delim).len() >= 1,
            views_of(out@) + seq![cur@ + spec_split(s@.skip(i as int), delim)[0]] + spec_split(
                s@.skip(i as int),
                delim,
            ).drop_first() == spec_split(s@, delim),
        decreases n - i,
    {
        let b = s[i];
        let ghost tail = s@.skip(i as int);
        let ghost tail2 = s@.skip(i as int + 1);
        proof {
            lemma_split_len(tail2, delim);
            assert(tail[0] == s@[i as int]);
            assert(tail.drop_first() =~= tail2);
        }
        if b == delim {
            proof {
                assert(spec_split(tail, delim) == seq![Seq::<u8>::empty()] + spec_split(
                    tail2,
                    delim,
                ));
                assert(views_of(out@.push(cur)) =~= views_of(out@) + seq![cur@]);
                assert(cur@ + spec_split(tail, delim)[0] =~= cur@);
                assert(spec_split(tail, delim).drop_first() =~= spec_split(tail2, delim));
                assert(views_of(out@.push(cur)) + seq![Seq::<u8>::empty() + spec_split(
                    tail2,
                    delim,
                )[0]] + spec_split(tail2, delim).drop_first() =~= views_of(out@) + seq![cur@
                    + spec_split(tail, delim)[0]] + spec_split(tail, delim).drop_first());
            }
            out.push(cur);
            cur = Vec::new();
            proof {
                assert(cur@ =~= Seq::<u8>::empty());
            }
        } else {
            proof {
                let rest = spec_split(tail2, delim);
                assert(spec_split(tail, delim) == seq![seq![tail[0]] + rest[0]]
                    + rest.drop_first());
                assert(cur@.push(b) + rest[0] =~= cur@ + (seq![tail[0]] + rest[0]));
                assert((seq![seq![tail[0]] + rest[0]] + rest.drop_first()).drop_first()
                    =~= rest.drop_first());
            }
            cur.push(b);
        }
        i = i + 1;
    }
    proof {
        assert(s@.skip(n as int) =~= Seq::<u8>::empty());
        assert(spec_split(Seq::<u8>::empty(), delim) == seq![Seq::<u8>::empty()]);
        assert(cur@ + Seq::<u8>::empty() =~= cur@);
        assert(views_of(out@.push(cur)) =~= views_of(out@) + seq![cur@]);
        assert(seq![Seq::<u8>::empty()].drop_first() =~= Seq::<Seq<u8>>::empty());
        assert(views_of(out@.push(cur)) =~= spec_split(s@, delim));
    }
    out.push(cur);
    out
}

/// Splits a byte string at ASCII whitespace, dropping empty pieces.
fn split_whitespace_bytes(s: &[u8]) -> (r: Vec<Vec<u8>>)
    ensures
        views_of(r@) == spec_words(s@),
{
    let mut out: Vec<Vec<u8>> = Vec::new();
    let mut cur: Vec<u8> = Vec::new();
    let n = s.len();
    let mut i: usize = 0;
    proof {
        assert(s@.skip(0) =~= s@);
        assert(cur@ + s@.skip(0) =~= s@);
        assert(views_of(out@) + spec_words(cur@ + s@.skip(0)) =~= spec_words(s@));
    }
    while i < n
        invariant
            0 <= i <= n,
            n == s@.len(),
            forall|k: int| 0 <= k < cur@.len() ==> !spec_is_space(#[trigger] cur@[k]),
            views_of(out@) + spec_words(cur@ + s@.skip(i as int)) == spec_words(s@),
        decreases n - i,
    {
        let b = s[i];
        let ghost tail = s@.skip(i as int);
        let ghost tail2 = s@.skip(i as int + 1);
        proof {
            assert(tail[0] == s@[i as int]);
            assert(tail.drop_first() =~= tail2);
        }
        if b == 32 || b == 9 || b == 10 || b == 13 {
            proof {
                if cur@.len() > 0 {
                    lemma_words_piece(cur@, b, tail2);
                    assert(cur@ + tail =~= cur@ + seq![b] + tail2);
                    assert(views_of(out@.push(cur)) =~= views_of(out@) + seq![cur@]);
                    assert(views_of(out@.push(cur)) + spec_words(Seq::<u8>::empty() + tail2)
                        =~= views_of(out@) + spec_words(cur@ + tail)) by {
                        assert(Seq::<u8>::empty() + tail2 =~= tail2);
                        assert(spec_words(cur@ + tail) =~= seq![cur@] + spec_words(tail2));
                    }
                } else {
                    assert(cur@ + tail =~= tail);
                    assert(spec_words(tail) == spec_words(tail2));
                    assert(cur@ + tail2 =~= tail2);
                }
            }
            if cur.len() > 0 {
                out.push(cur);
                cur = Vec::new();
                proof {
                    assert(cur@ =~= Seq::<u8>::empty());
                }
            }
        } else {
            proof {
                assert(cur@ + tail =~= cur@.push(b) + tail2);
            }
            cur.push(b);
        }
        i = i + 1;
    }
    proof {
        assert(s@.skip(n as int) =~= Seq::<u8>::empty());
        assert(cur@ + s@.skip(n as int) =~= cur@);
        if cur@.len() > 0 {
            lemma_words_single(cur@);
            assert(views_of(out@.push(cur)) =~= views_of(out@) + seq![cur@]);
            assert(views_of(out@.push(cur)) =~= spec_words(s@));
        } else {
            assert(cur@ =~= Seq::<u8>::empty());
            assert(spec_words(cur@) == Seq::<Seq<u8>>::empty());
            assert(views_of(out@) + Seq::<Seq<u8>>::empty() =~= views_of(out@));
        }
    }
    if cur.len() > 0 {
        out.push(cur);
    }
    out
}

/// A string whose bytes are `s`, or a parse error when they are not UTF-8.
fn bytes_to_sql_string(s: &[u8]) -> (r: SqlResult<String>)
    ensures
        r matches Ok(out) ==> encode_utf8(out@) == s@,
{
    let v = vstd::slice::slice_to_vec(s);
    match crate::text::string_from_utf8(v) {
        Some(out) => Ok(out),
        None => Err(SqlError::ParseError("statement is not UTF-8".to_owned())),
    }
}

/// Parses a type name: the SQL names and widths the engine accepts, upper
/// or lower case; `VARCHAR(n)` and `BLOB(n)` carry their width. Anything
/// unrecognized reads as a 32-bit integer.
fn parse_type(type_bytes: &[u8]) -> (r: SqlResult<ColumnType>)
    ensures
        r matches Ok(t) ==> spec_parse_type(spec_upper(type_bytes@)) == Some(t),
        r is Err <==> spec_parse_type(spec_upper(type_bytes@)) is None,
{
    let upper = upper_bytes(type_bytes);
    let up = upper.as_slice();
    // A parameterized type: `VARCHAR(n)` or `BLOB(n)`.
    match find_byte(up, 40) {
        Some(pos) => {
            match find_byte(up, 41) {
                Some(endp) => {
                    if pos + 1 <= endp {
                        let size_bytes = vstd::slice::slice_subrange(up, pos + 1, endp);
                        let size = match parse_u64(size_bytes) {
                            Some(v) => v,
                            None => {
                                return Err(SqlError::ParseError("Invalid size".to_owned()));
                            },
                        };
                        if size > 0xFFFF_FFFF {
                            return Err(SqlError::ParseError("Invalid size".to_owned()));
                        }
                        let base = vstd::slice::slice_subrange(up, 0, pos);
                        if word_varchar_upper(base) {
                            return Ok(ColumnType::Varchar(size as u32));
                        }
                        if word_blob_upper(base) {
                            return Ok(ColumnType::Blob(size as u32));
                        }
                    }
                },
                None => {},
            }
        },
        None => {},
    }
    Ok(keyword_type(up))
}


/// The scalar type a bare upper-case keyword names; unknown keywords read
/// as a 32-bit integer.
pub open spec fn spec_keyword_type(up: Seq<u8>) -> ColumnType {
    if up == seq![73u8, 78u8, 84u8, 54u8, 52u8] || up == seq![66u8, 73u8, 71u8, 73u8, 78u8, 84u8] {
        ColumnType::Int64
    } else if up == seq![73u8, 78u8, 84u8, 49u8, 54u8] || up == seq![83u8, 77u8, 65u8, 76u8, 76u8, 73u8, 78u8, 84u8] {
        ColumnType::Int16
    } else if up == seq![73u8, 78u8, 84u8, 56u8] || up == seq![84u8, 73u8, 78u8, 89u8, 73u8, 78u8, 84u8] {
        ColumnType::Int8
    } else if up == seq![70u8, 76u8, 79u8, 65u8, 84u8] || up == seq![70u8, 76u8, 79u8, 65u8, 84u8, 51u8, 50u8] {
        ColumnType::Float32
    } else if up == seq![68u8, 79u8, 85u8, 66u8, 76u8, 69u8] || up == seq![70u8, 76u8, 79u8, 65u8, 84u8, 54u8, 52u8] {
        ColumnType::Float64
    } else if up == seq![66u8, 79u8, 79u8, 76u8] || up == seq![66u8, 79u8, 79u8, 76u8, 69u8, 65u8, 78u8] {
        ColumnType::Bool
    } else if up == seq![84u8, 69u8, 88u8, 84u8] {
        ColumnType::Varchar(255)
    } else {
        ColumnType::Int32
    }
}

/// The column type an upper-cased type word parses to, if any: a
/// parenthesized width names `VARCHAR` or `BLOB` when the width is a number
/// within range; everything else falls back to the bare keywords.
pub open spec fn spec_parse_type(up: Seq<u8>) -> Option<ColumnType> {
    match spec_find_byte(up, 40) {
        Some(p) => match spec_find_byte(up, 41) {
            Some(q) => if p + 1 <= q {
                match crate::text::spec_parse_u64(up.subrange(p + 1, q)) {
                    Some(sz) => if sz <= 0xFFFF_FFFF {
                        if up.subrange(0, p) == seq![86u8, 65u8, 82u8, 67u8, 72u8, 65u8, 82u8] {
                            Some(ColumnType::Varchar(sz as u32))
                        } else if up.subrange(0, p) == seq![66u8, 76u8, 79u8, 66u8] {
                            Some(ColumnType::Blob(sz as u32))
                        } else {
                            Some(spec_keyword_type(up))
                        }
                    } else {
                        None
                    },
                    None => None,
                }
            } else {
                Some(spec_keyword_type(up))
            },
            None => Some(spec_keyword_type(up)),
        },
        None => Some(spec_keyword_type(up)),
    }
}

/// The scalar type a bare keyword names; unknown keywords read as `Int32`.
fn keyword_type(up: &[u8]) -> (r: ColumnType)
    ensures
        r == spec_keyword_type(up@),
{
    if word_int64(up) {
        ColumnType::Int64
    } else if word_int16(up) {
        ColumnType::Int16
    } else if word_int8(up) {
        ColumnType::Int8
    } else if word_float32(up) {
        ColumnType::Float32
    } else if word_float64(up) {
        ColumnType::Float64
    } else if word_bool(up) {
        ColumnType::Bool
    } else if word_text(up) {
        ColumnType::Varchar(255)
    } else {
        ColumnType::Int32
    }
}

/// Parses a statement: the leading keyword picks the form, as the storage
/// layer's naive splitter defines it.
pub fn parse(sql: &str) -> (r: SqlResult<Statement>)
    ensures
        r matches Ok(st) ==> (st matches Statement::CreateTable(ct) ==> spec_create_extraction(
            spec_trim(encode_utf8(sql@)),
            ct,
        )),
        r matches Ok(st) ==> (st matches Statement::Insert(ist) ==> spec_insert_extraction(
            spec_trim(encode_utf8(sql@)),
            ist,
        )),
        r matches Ok(st) ==> (st matches Statement::Select(sel) ==> spec_from_extraction(
            spec_trim(encode_utf8(sql@)),
            sel.from@,
            sel.where_clause,
        )),
        r matches Ok(st) ==> (st matches Statement::Update(ust) ==> spec_update_extraction(
            spec_trim(encode_utf8(sql@)),
            ust,
        )),
        r matches Ok(st) ==> (st matches Statement::Delete(del) ==> spec_from_extraction(
            spec_trim(encode_utf8(sql@)),
            del.table_name@,
            del.where_clause,
        )),
        ({
            let u = spec_upper(spec_trim(encode_utf8(sql@)));
            &&& (r matches Ok(st) ==> ((st is CreateTable) <==> spec_starts_with(
                u,
                seq![67u8, 82u8, 69u8, 65u8, 84u8, 69u8, 32u8, 84u8, 65u8, 66u8, 76u8, 69u8],
            )))
            &&& (r matches Ok(st) ==> ((st is Insert) <==> (!spec_starts_with(
                u,
                seq![67u8, 82u8, 69u8, 65u8, 84u8, 69u8, 32u8, 84u8, 65u8, 66u8, 76u8, 69u8],
            ) && spec_starts_with(u, seq![73u8, 78u8, 83u8, 69u8, 82u8, 84u8]))))
            &&& (r matches Ok(st) ==> ((st is Select) ==> spec_starts_with(
                u,
                seq![83u8, 69u8, 76u8, 69u8, 67u8, 84u8],
            )))
            &&& (r matches Ok(st) ==> ((st is Update) ==> spec_starts_with(
                u,
                seq![85u8, 80u8, 68u8, 65u8, 84u8, 69u8],
            )))
            &&& (r matches Ok(st) ==> ((st is Delete) ==> spec_starts_with(
                u,
                seq![68u8, 69u8, 76u8, 69u8, 84u8, 69u8],
            )))
            &&& ((!spec_starts_with(
                u,
                seq![67u8, 82u8, 69u8, 65u8, 84u8, 69u8, 32u8, 84u8, 65u8, 66u8, 76u8, 69u8],
            ) && !spec_starts_with(u, seq![73u8, 78u8, 83u8, 69u8, 82u8, 84u8])
                && !spec_starts_with(u, seq![83u8, 69u8, 76u8, 69u8, 67u8, 84u8])
                && !spec_starts_with(u, seq![85u8, 80u8, 68u8, 65u8, 84u8, 69u8])
                && !spec_starts_with(u, seq![68u8, 69u8, 76u8, 69u8, 84u8, 69u8])) ==> (
            r matches Err(SqlError::SyntaxError(_))))
        }),
{
    let raw = string_to_bytes(sql);
    let trimmed = trim_bytes(raw.as_slice());
    let s = trimmed.as_slice();
    let upper = upper_bytes(s);
    let up = upper.as_slice();
    if starts_with(up, kw_create_table().as_slice()) {
        parse_create_table(s, up)
    } else if starts_with(up, kw_insert().as_slice()) {
        parse_insert(s, up)
    } else if starts_with(up, kw_select().as_slice()) {
        parse_select(s, up)
    } else if starts_with(up, kw_update().as_slice()) {
        parse_update(s, up)
    } else if starts_with(up, kw_delete().as_slice()) {
        parse_delete(s, up)
    } else {
        Err(SqlError::SyntaxError("Unknown SQL statement".to_owned()))
    }
}

/// What one column definition's text fixes of the parsed column: the first
/// word is the name, the second word (if any) the type, and nullability is
/// the absence of `NOT NULL` in the upper-cased text.
pub open spec fn spec_col_extraction(piece_raw: Seq<u8>, cd: ColumnDef) -> bool {
    let piece = spec_trim(piece_raw);
    let words = spec_words(piece);
    &&& words.len() > 0
    &&& encode_utf8(cd.name@) == words[0]
    &&& (words.len() > 1 ==> spec_parse_type(spec_upper(words[1])) == Some(cd.data_type))
    &&& (words.len() <= 1 ==> cd.data_type == ColumnType::Int32)
    &&& cd.nullable == !spec_has_sub(
        spec_upper(piece),
        seq![78u8, 79u8, 84u8, 32u8, 78u8, 85u8, 76u8, 76u8],
    )
}

/// What a CREATE TABLE text fixes of the parsed statement: the name is the
/// trimmed text between the keyword and the first `(`, and — when every
/// comma piece between the outer parentheses is nonempty — each piece in
/// order gives one column.
pub open spec fn spec_create_extraction(s: Seq<u8>, ct: CreateTableStmt) -> bool {
    let after = s.skip(12);
    &&& s.len() >= 12
    &&& match (spec_find_byte(after, 40), spec_rfind_byte(after, 41)) {
        (Some(p), Some(q)) => {
            &&& p + 1 <= q
            &&& encode_utf8(ct.table_name@) == spec_trim(after.subrange(0, p))
            &&& {
                let pieces = spec_split(after.subrange(p + 1, q), 44u8);
                (forall|k: int|
                    0 <= k < pieces.len() ==> spec_trim(#[trigger] pieces[k]).len() > 0) ==> (
                ct.columns@.len() == pieces.len() && (forall|k: int|
                    0 <= k < pieces.len() ==> spec_col_extraction(
                        #[trigger] pieces[k],
                        ct.columns@[k],
                    )))
            }
        },
        _ => false,
    }
}

/// Parses `CREATE TABLE <name> ( <col> <type> [NOT NULL], ... )`.
fn parse_create_table(s: &[u8], up: &[u8]) -> (r: SqlResult<Statement>)
    requires
        up@.len() == s@.len(),
    ensures
        r matches Ok(st) ==> st is CreateTable,
        r matches Ok(st) ==> (st matches Statement::CreateTable(ct) && spec_create_extraction(
            s@,
            ct,
        )),
{
    let klen = kw_create_table().len();
    if klen > s.len() {
        return Err(SqlError::SyntaxError("Expected (".to_owned()));
    }
    let after = vstd::slice::slice_subrange(s, klen, s.len());
    proof {
        assert(after@ =~= s@.skip(12));
    }
    let paren = match find_byte(after, 40) {
        Some(p) => p,
        None => {
            return Err(SqlError::SyntaxError("Expected (".to_owned()));
        },
    };
    let name_part = trim_bytes(vstd::slice::slice_subrange(after, 0, paren));
    let table_name = match bytes_to_sql_string(name_part.as_slice()) {
        Ok(n) => n,
        Err(e) => {
            return Err(e);
        },
    };
    let paren_end = match rfind_byte(after, 41) {
        Some(p) => p,
        None => {
            return Err(SqlError::SyntaxError("Expected )".to_owned()));
        },
    };
    if paren_end < paren + 1 {
        return Err(SqlError::SyntaxError("Expected )".to_owned()));
    }
    let columns_str = vstd::slice::slice_subrange(after, paren + 1, paren_end);
    let pieces = split_byte(columns_str, 44);
    let ghost spieces = spec_split(after@.subrange(paren + 1, paren_end as int), 44u8);
    proof {
        assert(views_of(pieces@) == spieces);
    }
    let mut columns: Vec<ColumnDef> = Vec::new();
    let npieces = pieces.len();
    let mut i: usize = 0;
    while i < npieces
        invariant
            0 <= i <= npieces,
            npieces == pieces@.len(),
            views_of(pieces@) == spieces,
            (forall|k: int| 0 <= k < spieces.len() ==> spec_trim(#[trigger] spieces[k]).len() > 0)
                ==> (columns@.len() == i && (forall|k: int|
                0 <= k < i ==> spec_col_extraction(#[trigger] spieces[k], columns@[k]))),
        decreases npieces - i,
    {
        let ghost pre_cols = columns@;
        let piece = trim_bytes(pieces[i].as_slice());
        proof {
            assert(pieces@[i as int]@ == views_of(pieces@)[i as int]);
            assert(piece@ == spec_trim(spieces[i as int]));
        }
        if piece.len() > 0 {
            let words = split_whitespace_bytes(piece.as_slice());
            proof {
                lemma_trim_first_nonspace(spieces[i as int]);
                lemma_words_nonempty(piece@);
                assert(views_of(words@).len() > 0);
            }
            if words.len() > 0 {
                let name = match bytes_to_sql_string(words[0].as_slice()) {
                    Ok(n) => n,
                    Err(e) => {
                        return Err(e);
                    },
                };
                let data_type = if words.len() > 1 {
                    match parse_type(words[1].as_slice()) {
                        Ok(t) => t,
                        Err(e) => {
                            return Err(e);
                        },
                    }
                } else {
                    ColumnType::Int32
                };
                let piece_upper = upper_bytes(piece.as_slice());
                let nullable = find_sub(
                    piece_upper.as_slice(),
                    kw_not_null().as_slice(),
                ).is_none();
                columns.push(ColumnDef { name, data_type, nullable });
                proof {
                    assert(words@[0]@ == views_of(words@)[0]);
                    if words@.len() > 1 {
                        assert(words@[1]@ == views_of(words@)[1]);
                    }
                    if forall|k: int|
                        0 <= k < spieces.len() ==> spec_trim(#[trigger] spieces[k]).len() > 0 {
                        assert(pre_cols.len() == i);
                        assert(spec_col_extraction(spieces[i as int], columns@[i as int]));
                        assert(forall|k: int| 0 <= k < i ==> #[trigger] columns@[k] == pre_cols[k]);
                    }
                }
            }
        } else {
            proof {
                assert(spec_trim(spieces[i as int]).len() == 0);
            }
        }
        i = i + 1;
    }
    Ok(Statement::CreateTable(CreateTableStmt { table_name, columns }))
}

/// What an INSERT text fixes of the parsed statement: behind the keyword
/// and an optional `INTO`, the name runs to the first whitespace and the
/// rest splits at commas into the trimmed value literals.
pub open spec fn spec_insert_extraction(s: Seq<u8>, ist: InsertStmt) -> bool {
    let a0 = spec_trim(s.skip(6));
    &&& s.len() >= 6
    &&& {
        let after = if a0.len() >= 4 && spec_upper(a0).subrange(0, 4) == seq![
            73u8,
            78u8,
            84u8,
            79u8,
        ] {
            spec_trim(a0.skip(4))
        } else {
            a0
        };
        let sp = spec_first_space(after);
        &&& encode_utf8(ist.table_name@) == spec_trim(after.subrange(0, sp))
        &&& {
            let pieces = spec_split(
                spec_trim(after.subrange(sp, after.len() as int)),
                44u8,
            );
            ist.values@.len() == pieces.len() && (forall|k: int|
                0 <= k < pieces.len() ==> encode_utf8((#[trigger] ist.values@[k])@)
                    == spec_trim(pieces[k]))
        }
    }
}

/// Parses `INSERT [INTO] <name> <literal>, ...`.
#[verifier::rlimit(100)]
#[verifier::spinoff_prover]
fn parse_insert(s: &[u8], up: &[u8]) -> (r: SqlResult<Statement>)
    requires
        up@.len() == s@.len(),
    ensures
        r matches Ok(st) ==> st is Insert,
        r matches Ok(st) ==> (st matches Statement::Insert(ist) && spec_insert_extraction(
            s@,
            ist,
        )),
{
    let klen = kw_insert().len();
    if klen > s.len() {
        return Err(SqlError::SyntaxError("Expected table".to_owned()));
    }
    let after_raw = trim_bytes(vstd::slice::slice_subrange(s, klen, s.len()));
    proof {
        assert(s@.subrange(6, s@.len() as int) =~= s@.skip(6));
    }
    let after_upper = upper_bytes(after_raw.as_slice());
    let ghost a0 = spec_trim(s@.skip(6));
    let ghost safter = if a0.len() >= 4 && spec_upper(a0).subrange(0, 4) == seq![
        73u8,
        78u8,
        84u8,
        79u8,
    ] {
        spec_trim(a0.skip(4))
    } else {
        a0
    };
    let after = if starts_with(after_upper.as_slice(), kw_into().as_slice()) {
        let ilen = kw_into().len();
        if ilen > after_raw.len() {
            return Err(SqlError::SyntaxError("Expected table".to_owned()));
        }
        proof {
            assert(after_raw@.subrange(4, after_raw@.len() as int) =~= after_raw@.skip(4));
        }
        trim_bytes(vstd::slice::slice_subrange(after_raw.as_slice(), ilen, after_raw.len()))
    } else {
        after_raw
    };
    proof {
        assert(after@ == safter);
    }
    // The table name ends at the first whitespace.
    let n = after.len();
    let mut i: usize = 0;
    while i < n && !(after[i] == 32 || after[i] == 9 || after[i] == 10 || after[i] == 13)
        invariant
            0 <= i <= n,
            n == after@.len(),
            forall|k: int| 0 <= k < i ==> !spec_is_space(#[trigger] after@[k]),
        decreases n - i,
    {
        i = i + 1;
    }
    proof {
        lemma_first_space_at(after@, i as int);
    }
    let space = i;
    let table_name = match bytes_to_sql_string(
        trim_bytes(vstd::slice::slice_subrange(after.as_slice(), 0, space)).as_slice(),
    ) {
        Ok(t) => t,
        Err(e) => {
            return Err(e);
        },
    };
    let rest = trim_bytes(vstd::slice::slice_subrange(after.as_slice(), space, after.len()));
    let ghost spieces = spec_split(rest@, 44u8);
    let pieces = split_byte(rest.as_slice(), 44);
    proof {
        assert(views_of(pieces@) == spieces);
    }
    let mut values: Vec<String> = Vec::new();
    let npieces = pieces.len();
    let mut k: usize = 0;
    while k < npieces
        invariant
            0 <= k <= npieces,
            npieces == pieces@.len(),
            views_of(pieces@) == spieces,
            values@.len() == k,
            forall|j: int|
                0 <= j < k ==> encode_utf8((#[trigger] values@[j])@) == spec_trim(spieces[j]),
        decreases npieces - k,
    {
        let piece = trim_bytes(pieces[k].as_slice());
        proof {
            assert(pieces@[k as int]@ == views_of(pieces@)[k as int]);
        }
        match bytes_to_sql_string(piece.as_slice()) {
            Ok(v) => values.push(v),
            Err(e) => {
                return Err(e);
            },
        }
        k = k + 1;
    }
    let ist = InsertStmt { table_name, values };
    proof {
        let sp = spec_first_space(safter);
        assert(space as int == sp);
        assert(encode_utf8(ist.table_name@) == spec_trim(safter.subrange(0, sp)));
        assert(rest@ == spec_trim(safter.subrange(sp, safter.len() as int)));
        assert(ist.values@.len() == spieces.len());
        assert(spec_insert_extraction(s@, ist));
    }
    Ok(Statement::Insert(ist))
}

/// Parses `SELECT ... FROM <name> [WHERE <text>]`.
/// What a statement's `FROM <name> [WHERE <filter>]` part fixes of the
/// parsed name and filter.
pub open spec fn spec_from_extraction(
    s: Seq<u8>,
    name: Seq<char>,
    wc: Option<String>,
) -> bool {
    match spec_find_sub(spec_upper(s), seq![70u8, 82u8, 79u8, 77u8]) {
        Some(fp) => {
            &&& fp + 4 <= s.len()
            &&& {
                let tail = s.subrange(fp + 4, s.len() as int);
                match spec_find_sub(spec_upper(tail), seq![87u8, 72u8, 69u8, 82u8, 69u8]) {
                    Some(wp) => {
                        &&& wp + 5 <= tail.len()
                        &&& encode_utf8(name) == spec_trim(tail.subrange(0, wp))
                        &&& (wc matches Some(w) && encode_utf8(w@) == spec_trim(
                            tail.subrange(wp + 5, tail.len() as int),
                        ))
                    },
                    None => encode_utf8(name) == spec_trim(tail) && wc is None,
                }
            }
        },
        None => false,
    }
}

fn parse_select(s: &[u8], up: &[u8]) -> (r: SqlResult<Statement>)
    requires
        up@ == spec_upper(s@),
    ensures
        r matches Ok(st) ==> st is Select,
        r matches Ok(st) ==> (st matches Statement::Select(sel) && spec_from_extraction(
            s@,
            sel.from@,
            sel.where_clause,
        )),
{
    let slen = s.len();
    let kw = kw_from();
    let from_pos = match find_sub(up, kw.as_slice()) {
        Some(p) => p,
        None => {
            return Err(SqlError::SyntaxError("Expected FROM".to_owned()));
        },
    };
    let start = from_pos + kw.len();
    if start > slen {
        return Err(SqlError::SyntaxError("Expected FROM".to_owned()));
    }
    let after_from = vstd::slice::slice_subrange(s, start, slen);
    proof {
        assert(after_from@ =~= s@.subrange(start as int, slen as int));
    }
    let after_from_up = upper_bytes(after_from);
    let (from, where_clause) = match split_where(after_from, after_from_up.as_slice()) {
        Ok(p) => p,
        Err(e) => {
            return Err(e);
        },
    };
    Ok(Statement::Select(SelectStmt { from, where_clause }))
}

/// Splits `<head> [WHERE <tail>]` into the head and the optional tail.
fn split_where(s: &[u8], up: &[u8]) -> (r: SqlResult<(String, Option<String>)>)
    requires
        up@ == spec_upper(s@),
    ensures
        r matches Ok(hw) ==> match spec_find_sub(
            spec_upper(s@),
            seq![87u8, 72u8, 69u8, 82u8, 69u8],
        ) {
            Some(p) => {
                &&& p + 5 <= s@.len()
                &&& encode_utf8(hw.0@) == spec_trim(s@.subrange(0, p))
                &&& (hw.1 matches Some(t) && encode_utf8(t@) == spec_trim(
                    s@.subrange(p + 5, s@.len() as int),
                ))
            },
            None => encode_utf8(hw.0@) == spec_trim(s@) && hw.1 is None,
        },
{
    let slen = s.len();
    let kw = kw_where();
    match find_sub(up, kw.as_slice()) {
        Some(p) => {
            let head = match bytes_to_sql_string(
                trim_bytes(vstd::slice::slice_subrange(s, 0, p)).as_slice(),
            ) {
                Ok(h) => h,
                Err(e) => {
                    return Err(e);
                },
            };
            let wstart = p + kw.len();
            if wstart > slen {
                return Err(SqlError::SyntaxError("Expected WHERE clause".to_owned()));
            }
            let tail = match bytes_to_sql_string(
                trim_bytes(vstd::slice::slice_subrange(s, wstart, slen)).as_slice(),
            ) {
                Ok(t) => t,
                Err(e) => {
                    return Err(e);
                },
            };
            Ok((head, Some(tail)))
        },
        None => {
            let head = match bytes_to_sql_string(trim_bytes(s).as_slice()) {
                Ok(h) => h,
                Err(e) => {
                    return Err(e);
                },
            };
            Ok((head, None))
        },
    }
}

/// Parses `UPDATE <name> SET <col>=<literal>, ... [WHERE <text>]`.
/// What one `lhs = rhs` assignment's text fixes of the parsed pair.
pub open spec fn spec_set_pair(piece_raw: Seq<u8>, pr: (String, String)) -> bool {
    let piece = spec_trim(piece_raw);
    match spec_find_byte(piece, 61) {
        Some(eq) => encode_utf8(pr.0@) == spec_trim(piece.subrange(0, eq)) && encode_utf8(
            pr.1@,
        ) == spec_trim(piece.subrange(eq + 1, piece.len() as int)),
        None => false,
    }
}

/// What a SET list's text fixes of the parsed assignments, when every comma
/// piece carries an equals sign.
pub open spec fn spec_set_pairs_ok(head: Seq<u8>, set: Seq<(String, String)>) -> bool {
    let pieces = spec_split(head, 44u8);
    (forall|k: int|
        0 <= k < pieces.len() ==> spec_find_byte(
            spec_trim(#[trigger] pieces[k]),
            61,
        ) is Some) ==> (set.len() == pieces.len() && (forall|k: int|
        0 <= k < pieces.len() ==> spec_set_pair(#[trigger] pieces[k], set[k])))
}

/// What an UPDATE text fixes of the parsed statement: the name before the
/// first `SET`, the assignments between `SET` and any `WHERE`, and the
/// trailing filter.
pub open spec fn spec_update_extraction(s: Seq<u8>, ust: UpdateStmt) -> bool {
    let after = s.skip(6);
    &&& s.len() >= 6
    &&& match spec_find_sub(spec_upper(after), seq![83u8, 69u8, 84u8]) {
        Some(sp) => {
            &&& sp + 3 <= after.len()
            &&& encode_utf8(ust.table_name@) == spec_trim(after.subrange(0, sp))
            &&& {
                let tail = after.subrange(sp + 3, after.len() as int);
                match spec_find_sub(spec_upper(tail), seq![87u8, 72u8, 69u8, 82u8, 69u8]) {
                    Some(wp) => {
                        &&& wp + 5 <= tail.len()
                        &&& (ust.where_clause matches Some(w) && encode_utf8(w@) == spec_trim(
                            tail.subrange(wp + 5, tail.len() as int),
                        ))
                        &&& spec_set_pairs_ok(spec_trim(tail.subrange(0, wp)), ust.set@)
                    },
                    None => ust.where_clause is None && spec_set_pairs_ok(
                        spec_trim(tail),
                        ust.set@,
                    ),
                }
            }
        },
        None => false,
    }
}

fn parse_update(s: &[u8], up: &[u8]) -> (r: SqlResult<Statement>)
    requires
        up@.len() == s@.len(),
    ensures
        r matches Ok(st) ==> st is Update,
        r matches Ok(st) ==> (st matches Statement::Update(ust) && spec_update_extraction(
            s@,
            ust,
        )),
{
    let klen = kw_update().len();
    if klen > s.len() {
        return Err(SqlError::SyntaxError("Expected SET".to_owned()));
    }
    let after = vstd::slice::slice_subrange(s, klen, s.len());
    proof {
        assert(after@ =~= s@.skip(6));
    }
    let alen = after.len();
    let after_up = upper_bytes(after);
    let kw = kw_set();
    let set_pos = match find_sub(after_up.as_slice(), kw.as_slice()) {
        Some(p) => p,
        None => {
            return Err(SqlError::SyntaxError("Expected SET".to_owned()));
        },
    };
    let table_name = match bytes_to_sql_string(
        trim_bytes(vstd::slice::slice_subrange(after, 0, set_pos)).as_slice(),
    ) {
        Ok(t) => t,
        Err(e) => {
            return Err(e);
        },
    };
    let sstart = set_pos + kw.len();
    if sstart > alen {
        return Err(SqlError::SyntaxError("Expected SET".to_owned()));
    }
    let after_set = vstd::slice::slice_subrange(after, sstart, alen);
    let ghost tail = after@.subrange(sstart as int, alen as int);
    let after_set_up = upper_bytes(after_set);
    let (set_str, where_clause) = match split_where_raw(after_set, after_set_up.as_slice()) {
        Ok(p) => p,
        Err(e) => {
            return Err(e);
        },
    };
    let ghost shead = spec_split(set_str@, 44u8);
    let pieces = split_byte(set_str.as_slice(), 44);
    proof {
        assert(views_of(pieces@) == shead);
    }
    let mut set: Vec<(String, String)> = Vec::new();
    let npieces = pieces.len();
    let mut k: usize = 0;
    while k < npieces
        invariant
            0 <= k <= npieces,
            npieces == pieces@.len(),
            views_of(pieces@) == shead,
            (forall|j: int|
                0 <= j < shead.len() ==> spec_find_byte(
                    spec_trim(#[trigger] shead[j]),
                    61,
                ) is Some) ==> (set@.len() == k && (forall|j: int|
                0 <= j < k ==> spec_set_pair(#[trigger] shead[j], set@[j]))),
        decreases npieces - k,
    {
        let ghost pre_set = set@;
        let piece = trim_bytes(pieces[k].as_slice());
        proof {
            assert(pieces@[k as int]@ == views_of(pieces@)[k as int]);
            assert(piece@ == spec_trim(shead[k as int]));
        }
        let plen = piece.len();
        match find_byte(piece.as_slice(), 61) {
            Some(eq) => {
                let lhs = match bytes_to_sql_string(
                    trim_bytes(vstd::slice::slice_subrange(piece.as_slice(), 0, eq)).as_slice(),
                ) {
                    Ok(v) => v,
                    Err(e) => {
                        return Err(e);
                    },
                };
                let rhs = match bytes_to_sql_string(
                    trim_bytes(
                        vstd::slice::slice_subrange(piece.as_slice(), eq + 1, plen),
                    ).as_slice(),
                ) {
                    Ok(v) => v,
                    Err(e) => {
                        return Err(e);
                    },
                };
                set.push((lhs, rhs));
                proof {
                    if forall|j: int|
                        0 <= j < shead.len() ==> spec_find_byte(
                            spec_trim(#[trigger] shead[j]),
                            61,
                        ) is Some {
                        assert(pre_set.len() == k);
                        assert(spec_set_pair(shead[k as int], set@[k as int]));
                        assert(forall|j: int| 0 <= j < k ==> #[trigger] set@[j] == pre_set[j]);
                    }
                }
            },
            None => {},
        }
        k = k + 1;
    }
    Ok(Statement::Update(UpdateStmt { table_name, set, where_clause }))
}

/// Splits `<head> [WHERE <tail>]`, keeping the head as raw bytes.
fn split_where_raw(s: &[u8], up: &[u8]) -> (r: SqlResult<(Vec<u8>, Option<String>)>)
    requires
        up@ == spec_upper(s@),
    ensures
        r matches Ok(hw) ==> match spec_find_sub(
            spec_upper(s@),
            seq![87u8, 72u8, 69u8, 82u8, 69u8],
        ) {
            Some(p) => {
                &&& p + 5 <= s@.len()
                &&& hw.0@ == spec_trim(s@.subrange(0, p))
                &&& (hw.1 matches Some(t) && encode_utf8(t@) == spec_trim(
                    s@.subrange(p + 5, s@.len() as int),
                ))
            },
            None => hw.0@ == spec_trim(s@) && hw.1 is None,
        },
{
    let slen = s.len();
    let kw = kw_where();
    match find_sub(up, kw.as_slice()) {
        Some(p) => {
            let head = trim_bytes(vstd::slice::slice_subrange(s, 0, p));
            let wstart = p + kw.len();
            if wstart > slen {
                return Err(SqlError::SyntaxError("Expected WHERE clause".to_owned()));
            }
            let tail = match bytes_to_sql_string(
                trim_bytes(vstd::slice::slice_subrange(s, wstart, slen)).as_slice(),
            ) {
                Ok(t) => t,
                Err(e) => {
                    return Err(e);
                },
            };
            Ok((head, Some(tail)))
        },
        None => Ok((trim_bytes(s), None)),
    }
}

/// Parses `DELETE FROM <name> [WHERE <text>]`.
fn parse_delete(s: &[u8], up: &[u8]) -> (r: SqlResult<Statement>)
    requires
        up@ == spec_upper(s@),
    ensures
        r matches Ok(st) ==> st is Delete,
        r matches Ok(st) ==> (st matches Statement::Delete(del) && spec_from_extraction(
            s@,
            del.table_name@,
            del.where_clause,
        )),
{
    let slen = s.len();
    let kw = kw_from();
    let from_pos = match find_sub(up, kw.as_slice()) {
        Some(p) => p,
        None => {
            return Err(SqlError::SyntaxError("Expected FROM".to_owned()));
        },
    };
    let start = from_pos + kw.len();
    if start > slen {
        return Err(SqlError::SyntaxError("Expected FROM".to_owned()));
    }
    let after_from = vstd::slice::slice_subrange(s, start, slen);
    proof {
        assert(after_from@ =~= s@.subrange(start as int, slen as int));
    }
    let after_from_up = upper_bytes(after_from);
    let (table_name, where_clause) = match split_where(after_from, after_from_up.as_slice()) {
        Ok(p) => p,
        Err(e) => {
            return Err(e);
        },
    };
    Ok(Statement::Delete(DeleteStmt { table_name, where_clause }))
}

/// The statement keyword, as upper-case bytes.
fn kw_create_table() -> (v: Vec<u8>)
    ensures
        v@.len() > 0,
        v@ == seq![67u8, 82u8, 69u8, 65u8, 84u8, 69u8, 32u8, 84u8, 65u8, 66u8, 76u8, 69u8],
{
    let mut v: Vec<u8> = Vec::new();
    v.push(67);
    v.push(82);
    v.push(69);
    v.push(65);
    v.push(84);
    v.push(69);
    v.push(32);
    v.push(84);
    v.push(65);
    v.push(66);
    v.push(76);
    v.push(69);
    proof {
        assert(v@ =~= seq![67u8, 82u8, 69u8, 65u8, 84u8, 69u8, 32u8, 84u8, 65u8, 66u8, 76u8, 69u8]);
    }
    v
}

/// The statement keyword, as upper-case bytes.
fn kw_insert() -> (v: Vec<u8>)
    ensures
        v@.len() > 0,
        v@ == seq![73u8, 78u8, 83u8, 69u8, 82u8, 84u8],
{
    let mut v: Vec<u8> = Vec::new();
    v.push(73);
    v.push(78);
    v.push(83);
    v.push(69);
    v.push(82);
    v.push(84);
    proof {
        assert(v@ =~= seq![73u8, 78u8, 83u8, 69u8, 82u8, 84u8]);
    }
    v
}

/// The statement keyword, as upper-case bytes.
fn kw_select() -> (v: Vec<u8>)
    ensures
        v@.len() > 0,
        v@ == seq![83u8, 69u8, 76u8, 69u8, 67u8, 84u8],
{
    let mut v: Vec<u8> = Vec::new();
    v.push(83);
    v.push(69);
    v.push(76);
    v.push(69);
    v.push(67);
    v.push(84);
    proof {
        assert(v@ =~= seq![83u8, 69u8, 76u8, 69u8, 67u8, 84u8]);
    }
    v
}

/// The statement keyword, as upper-case bytes.
fn kw_update() -> (v: Vec<u8>)
    ensures
        v@.len() > 0,
        v@ == seq![85u8, 80u8, 68u8, 65u8, 84u8, 69u8],
{
    let mut v: Vec<u8> = Vec::new();
    v.push(85);
    v.push(80);
    v.push(68);
    v.push(65);
    v.push(84);
    v.push(69);
    proof {
        assert(v@ =~= seq![85u8, 80u8, 68u8, 65u8, 84u8, 69u8]);
    }
    v
}

/// The statement keyword, as upper-case bytes.
fn kw_delete() -> (v: Vec<u8>)
    ensures
        v@.len() > 0,
        v@ == seq![68u8, 69u8, 76u8, 69u8, 84u8, 69u8],
{
    let mut v: Vec<u8> = Vec::new();
    v.push(68);
    v.push(69);
    v.push(76);
    v.push(69);
    v.push(84);
    v.push(69);
    proof {
        assert(v@ =~= seq![68u8, 69u8, 76u8, 69u8, 84u8, 69u8]);
    }
    v
}

/// The statement keyword, as upper-case bytes.
fn kw_into() -> (v: Vec<u8>)
    ensures
        v@.len() > 0,
        v@ == seq![73u8, 78u8, 84u8, 79u8],
{
    let mut v: Vec<u8> = Vec::new();
    v.push(73);
    v.push(78);
    v.push(84);
    v.push(79);
    proof {
        assert(v@ =~= seq![73u8, 78u8, 84u8, 79u8]);
    }
    v
}

/// The statement keyword, as upper-case bytes.
fn kw_from() -> (v: Vec<u8>)
    ensures
        v@.len() > 0,
        v@ == seq![70u8, 82u8, 79u8, 77u8],
{
    let mut v: Vec<u8> = Vec::new();
    v.push(70);
    v.push(82);
    v.push(79);
    v.push(77);
    proof {
        assert(v@ =~= seq![70u8, 82u8, 79u8, 77u8]);
    }
    v
}

/// The statement keyword, as upper-case bytes.
fn kw_where() -> (v: Vec<u8>)
    ensures
        v@.len() > 0,
        v@ == seq![87u8, 72u8, 69u8, 82u8, 69u8],
{
    let mut v: Vec<u8> = Vec::new();
    v.push(87);
    v.push(72);
    v.push(69);
    v.push(82);
    v.push(69);
    proof {
        assert(v@ =~= seq![87u8, 72u8, 69u8, 82u8, 69u8]);
    }
    v
}

/// The statement keyword, as upper-case bytes.
fn kw_set() -> (v: Vec<u8>)
    ensures
        v@.len() > 0,
        v@ == seq![83u8, 69u8, 84u8],
{
    let mut v: Vec<u8> = Vec::new();
    v.push(83);
    v.push(69);
    v.push(84);
    proof {
        assert(v@ =~= seq![83u8, 69u8, 84u8]);
    }
    v
}

/// The statement keyword, as upper-case bytes.
fn kw_not_null() -> (v: Vec<u8>)
    ensures
        v@.len() > 0,
        v@ == seq![78u8, 79u8, 84u8, 32u8, 78u8, 85u8, 76u8, 76u8],
{
    let mut v: Vec<u8> = Vec::new();
    v.push(78);
    v.push(79);
    v.push(84);
    v.push(32);
    v.push(78);
    v.push(85);
    v.push(76);
    v.push(76);
    proof {
        assert(v@ =~= seq![78u8, 79u8, 84u8, 32u8, 78u8, 85u8, 76u8, 76u8]);
    }
    v
}

/// Whether the bytes spell one of the keyword's accepted forms.
fn word_int64(code: &[u8]) -> (r: bool)
    ensures
        r == (code@ =~= seq![73u8, 78u8, 84u8, 54u8, 52u8] || code@ =~= seq![66u8, 73u8, 71u8, 73u8, 78u8, 84u8]),
{
    let r = (code.len() == 5 && code[0] == 73 && code[1] == 78 && code[2] == 84 && code[3] == 54 && code[4] == 52) || (code.len() == 6 && code[0] == 66 && code[1] == 73 && code[2] == 71 && code[3] == 73 && code[4] == 78 && code[5] == 84);
    proof {
        if code@.len() == 5 {
            assert((code@ =~= seq![73u8, 78u8, 84u8, 54u8, 52u8]) == (code@[0] == 73 && code@[1] == 78 && code@[2] == 84 && code@[3] == 54 && code@[4] == 52));
        }
        if code@.len() == 6 {
            assert((code@ =~= seq![66u8, 73u8, 71u8, 73u8, 78u8, 84u8]) == (code@[0] == 66 && code@[1] == 73 && code@[2] == 71 && code@[3] == 73 && code@[4] == 78 && code@[5] == 84));
        }
    }
    r
}

/// Whether the bytes spell one of the keyword's accepted forms.
fn word_int16(code: &[u8]) -> (r: bool)
    ensures
        r == (code@ =~= seq![73u8, 78u8, 84u8, 49u8, 54u8] || code@ =~= seq![83u8, 77u8, 65u8, 76u8, 76u8, 73u8, 78u8, 84u8]),
{
    let r = (code.len() == 5 && code[0] == 73 && code[1] == 78 && code[2] == 84 && code[3] == 49 && code[4] == 54) || (code.len() == 8 && code[0] == 83 && code[1] == 77 && code[2] == 65 && code[3] == 76 && code[4] == 76 && code[5] == 73 && code[6] == 78 && code[7] == 84);
    proof {
        if code@.len() == 5 {
            assert((code@ =~= seq![73u8, 78u8, 84u8, 49u8, 54u8]) == (code@[0] == 73 && code@[1] == 78 && code@[2] == 84 && code@[3] == 49 && code@[4] == 54));
        }
        if code@.len() == 8 {
            assert((code@ =~= seq![83u8, 77u8, 65u8, 76u8, 76u8, 73u8, 78u8, 84u8]) == (code@[0] == 83 && code@[1] == 77 && code@[2] == 65 && code@[3] == 76 && code@[4] == 76 && code@[5] == 73 && code@[6] == 78 && code@[7] == 84));
        }
    }
    r
}

/// Whether the bytes spell one of the keyword's accepted forms.
fn word_int8(code: &[u8]) -> (r: bool)
    ensures
        r == (code@ =~= seq![73u8, 78u8, 84u8, 56u8] || code@ =~= seq![84u8, 73u8, 78u8, 89u8, 73u8, 78u8, 84u8]),
{
    let r = (code.len() == 4 && code[0] == 73 && code[1] == 78 && code[2] == 84 && code[3] == 56) || (code.len() == 7 && code[0] == 84 && code[1] == 73 && code[2] == 78 && code[3] == 89 && code[4] == 73 && code[5] == 78 && code[6] == 84);
    proof {
        if code@.len() == 4 {
            assert((code@ =~= seq![73u8, 78u8, 84u8, 56u8]) == (code@[0] == 73 && code@[1] == 78 && code@[2] == 84 && code@[3] == 56));
        }
        if code@.len() == 7 {
            assert((code@ =~= seq![84u8, 73u8, 78u8, 89u8, 73u8, 78u8, 84u8]) == (code@[0] == 84 && code@[1] == 73 && code@[2] == 78 && code@[3] == 89 && code@[4] == 73 && code@[5] == 78 && code@[6] == 84));
        }
    }
    r
}

/// Whether the bytes spell one of the keyword's accepted forms.
fn word_float32(code: &[u8]) -> (r: bool)
    ensures
        r == (code@ =~= seq![70u8, 76u8, 79u8, 65u8, 84u8] || code@ =~= seq![70u8, 76u8, 79u8, 65u8, 84u8, 51u8, 50u8]),
{
    let r = (code.len() == 5 && code[0] == 70 && code[1] == 76 && code[2] == 79 && code[3] == 65 && code[4] == 84) || (code.len() == 7 && code[0] == 70 && code[1] == 76 && code[2] == 79 && code[3] == 65 && code[4] == 84 && code[5] == 51 && code[6] == 50);
    proof {
        if code@.len() == 5 {
            assert((code@ =~= seq![70u8, 76u8, 79u8, 65u8, 84u8]) == (code@[0] == 70 && code@[1] == 76 && code@[2] == 79 && code@[3] == 65 && code@[4] == 84));
        }
        if code@.len() == 7 {
            assert((code@ =~= seq![70u8, 76u8, 79u8, 65u8, 84u8, 51u8, 50u8]) == (code@[0] == 70 && code@[1] == 76 && code@[2] == 79 && code@[3] == 65 && code@[4] == 84 && code@[5] == 51 && code@[6] == 50));
        }
    }
    r
}

/// Whether the bytes spell one of the keyword's accepted forms.
fn word_float64(code: &[u8]) -> (r: bool)
    ensures
        r == (code@ =~= seq![68u8, 79u8, 85u8, 66u8, 76u8, 69u8] || code@ =~= seq![70u8, 76u8, 79u8, 65u8, 84u8, 54u8, 52u8]),
{
    let r = (code.len() == 6 && code[0] == 68 && code[1] == 79 && code[2] == 85 && code[3] == 66 && code[4] == 76 && code[5] == 69) || (code.len() == 7 && code[0] == 70 && code[1] == 76 && code[2] == 79 && code[3] == 65 && code[4] == 84 && code[5] == 54 && code[6] == 52);
    proof {
        if code@.len() == 6 {
            assert((code@ =~= seq![68u8, 79u8, 85u8, 66u8, 76u8, 69u8]) == (code@[0] == 68 && code@[1] == 79 && code@[2] == 85 && code@[3] == 66 && code@[4] == 76 && code@[5] == 69));
        }
        if code@.len() == 7 {
            assert((code@ =~= seq![70u8, 76u8, 79u8, 65u8, 84u8, 54u8, 52u8]) == (code@[0] == 70 && code@[1] == 76 && code@[2] == 79 && code@[3] == 65 && code@[4] == 84 && code@[5] == 54 && code@[6] == 52));
        }
    }
    r
}

/// Whether the bytes spell one of the keyword's accepted forms.
fn word_bool(code: &[u8]) -> (r: bool)
    ensures
        r == (code@ =~= seq![66u8, 79u8, 79u8, 76u8] || code@ =~= seq![66u8, 79u8, 79u8, 76u8, 69u8, 65u8, 78u8]),
{
    let r = (code.len() == 4 && code[0] == 66 && code[1] == 79 && code[2] == 79 && code[3] == 76) || (code.len() == 7 && code[0] == 66 && code[1] == 79 && code[2] == 79 && code[3] == 76 && code[4] == 69 && code[5] == 65 && code[6] == 78);
    proof {
        if code@.len() == 4 {
            assert((code@ =~= seq![66u8, 79u8, 79u8, 76u8]) == (code@[0] == 66 && code@[1] == 79 && code@[2] == 79 && code@[3] == 76));
        }
        if code@.len() == 7 {
            assert((code@ =~= seq![66u8, 79u8, 79u8, 76u8, 69u8, 65u8, 78u8]) == (code@[0] == 66 && code@[1] == 79 && code@[2] == 79 && code@[3] == 76 && code@[4] == 69 && code@[5] == 65 && code@[6] == 78));
        }
    }
    r
}

/// Whether the bytes spell one of the keyword's accepted forms.
fn word_text(code: &[u8]) -> (r: bool)
    ensures
        r == (code@ =~= seq![84u8, 69u8, 88u8, 84u8]),
{
    let r = (code.len() == 4 && code[0] == 84 && code[1] == 69 && code[2] == 88 && code[3] == 84);
    proof {
        if code@.len() == 4 {
            assert((code@ =~= seq![84u8, 69u8, 88u8, 84u8]) == (code@[0] == 84 && code@[1] == 69 && code@[2] == 88 && code@[3] == 84));
        }
    }
    r
}

/// Whether the bytes spell one of the keyword's accepted forms.
fn word_varchar_upper(code: &[u8]) -> (r: bool)
    ensures
        r == (code@ =~= seq![86u8, 65u8, 82u8, 67u8, 72u8, 65u8, 82u8]),
{
    let r = (code.len() == 7 && code[0] == 86 && code[1] == 65 && code[2] == 82 && code[3] == 67 && code[4] == 72 && code[5] == 65 && code[6] == 82);
    proof {
        if code@.len() == 7 {
            assert((code@ =~= seq![86u8, 65u8, 82u8, 67u8, 72u8, 65u8, 82u8]) == (code@[0] == 86 && code@[1] == 65 && code@[2] == 82 && code@[3] == 67 && code@[4] == 72 && code@[5] == 65 && code@[6] == 82));
        }
    }
    r
}

/// Whether the bytes spell one of the keyword's accepted forms.
fn word_blob_upper(code: &[u8]) -> (r: bool)
    ensures
        r == (code@ =~= seq![66u8, 76u8, 79u8, 66u8]),
{
    let r = (code.len() == 4 && code[0] == 66 && code[1] == 76 && code[2] == 79 && code[3] == 66);
    proof {
        if code@.len() == 4 {
            assert((code@ =~= seq![66u8, 76u8, 79u8, 66u8]) == (code@[0] == 66 && code@[1] == 76 && code@[2] == 79 && code@[3] == 66));
        }
    }
    r
}

} // verus!
