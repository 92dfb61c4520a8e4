//! The execution engine: the row codec, the statement parser and the
//! virtual machine that maps statements to cursor operations.

use crate::byteops::{
    copy_range, lemma_u32_le_round_trip, read_u32_le, spec_u32_le, spec_u32_le_bytes,
};
use crate::constants::{
    lemma_constant_values, EMAIL_OFFSET, EMAIL_SIZE, ID_OFFSET, LEAF_NODE_MAX_CELLS, PAGE_SIZE,
    ROW_SIZE, USERNAME_OFFSET, USERNAME_SIZE,
};
use crate::btree::{
    lemma_cell_parts, spec_leaf_num_cells, spec_leaf_value,
};
use crate::pager::spec_disk_page;
use crate::table::{lemma_flush_image_page0, Table, TableError};
use vstd::prelude::*;
use vstd::string::{StrSliceExecFns, StringSliceAdditionalSpecFns};

verus! {

/// The mathematical view of one row of the users table.
pub ghost struct RowView {
    pub id: u32,
    pub username: Seq<u8>,
    pub email: Seq<u8>,
}

/// A row handed to the engine for insertion.
#[derive(Debug)]
pub struct Row {
    pub id: u32,
    pub username: Vec<u8>,
    pub email: Vec<u8>,
}

impl View for Row {
    type V = RowView;

    open spec fn view(&self) -> RowView {
        RowView { id: self.id, username: self.username@, email: self.email@ }
    }
}

/// An owned row handed back by a scan.
#[derive(Debug)]
pub struct ResultRow {
    pub id: u32,
    pub username: Vec<u8>,
    pub email: Vec<u8>,
}

impl View for ResultRow {
    type V = RowView;

    open spec fn view(&self) -> RowView {
        RowView { id: self.id, username: self.username@, email: self.email@ }
    }
}

/// `s` right-padded with zero bytes to `width`.
pub open spec fn spec_pad(s: Seq<u8>, width: int) -> Seq<u8>
    recommends
        s.len() <= width,
{
    s + Seq::new((width - s.len()) as nat, |i: int| 0u8)
}

/// A row with both string fields right-padded to their fixed widths: what
/// the storage layer keeps of a row.
pub open spec fn spec_padded_row(r: RowView) -> RowView {
    RowView {
        id: r.id,
        username: spec_pad(r.username, USERNAME_SIZE as int),
        email: spec_pad(r.email, EMAIL_SIZE as int),
    }
}

/// The serialized form of a row: little-endian id, then the padded fields.
pub open spec fn spec_serialize_row(r: RowView) -> Seq<u8> {
    spec_u32_le_bytes(r.id) + spec_pad(r.username, USERNAME_SIZE as int) + spec_pad(
        r.email,
        EMAIL_SIZE as int,
    )
}

/// The row read back from a value slot.
pub open spec fn spec_deserialize_row(b: Seq<u8>) -> RowView
    recommends
        b.len() == ROW_SIZE,
{
    RowView {
        id: spec_u32_le(b.subrange(ID_OFFSET as int, USERNAME_OFFSET as int)),
        username: b.subrange(USERNAME_OFFSET as int, EMAIL_OFFSET as int),
        email: b.subrange(EMAIL_OFFSET as int, ROW_SIZE as int),
    }
}

/// The rows stored in a leaf page, in cell order.
pub open spec fn spec_page_rows(page: Seq<u8>) -> Seq<RowView> {
    Seq::new(
        spec_leaf_num_cells(page) as nat,
        |i: int| spec_deserialize_row(spec_leaf_value(page, i)),
    )
}

/// The rows a table currently holds.
pub open spec fn spec_table_rows(t: Table) -> Seq<RowView> {
    spec_page_rows(t.page0())
}

/// The rows stored in a file image: what a fresh table over it would hold.
pub open spec fn spec_file_rows(contents: Seq<u8>) -> Seq<RowView> {
    spec_page_rows(spec_disk_page(contents, 0))
}

/// The codec is idempotent: deserializing a serialized row gives the row
/// back with its string fields zero-padded to their fixed widths.
pub proof fn lemma_codec_round_trip(r: RowView)
    requires
        r.username.len() <= USERNAME_SIZE,
        r.email.len() <= EMAIL_SIZE,
    ensures
        spec_deserialize_row(spec_serialize_row(r)) == spec_padded_row(r),
        spec_trim_zeros(spec_padded_row(r).username) == spec_trim_zeros(r.username),
        spec_trim_zeros(spec_padded_row(r).email) == spec_trim_zeros(r.email),
{
    lemma_constant_values();
    lemma_u32_le_round_trip(r.id);
    lemma_trim_of_padded(r.username, USERNAME_SIZE as int);
    lemma_trim_of_padded(r.email, EMAIL_SIZE as int);
    let b = spec_serialize_row(r);
    assert(b.subrange(ID_OFFSET as int, USERNAME_OFFSET as int) =~= spec_u32_le_bytes(r.id));
    assert(b.subrange(USERNAME_OFFSET as int, EMAIL_OFFSET as int) =~= spec_pad(
        r.username,
        USERNAME_SIZE as int,
    ));
    assert(b.subrange(EMAIL_OFFSET as int, ROW_SIZE as int) =~= spec_pad(r.email, EMAIL_SIZE as int));
}

/// Persistence: the image a clean shutdown writes back is page-aligned,
/// reopens without error, and the reopened file shows exactly the rows the
/// table held.
pub proof fn lemma_persistence(t: Table)
    requires
        t.wf(),
    ensures
        t.pager.flush_image().len() as int % (PAGE_SIZE as int) == 0,
        t.pager.flush_image().len() as int / (PAGE_SIZE as int) <= u32::MAX,
        spec_file_rows(t.pager.flush_image()) == spec_table_rows(t),
{
    lemma_flush_image_page0(t);
}

/// Serializes a row into one value slot: little-endian id at the start,
/// then each string field right-padded with zero bytes to its fixed width.
pub fn serialize_row(row: &Row) -> (buf: Vec<u8>)
    requires
        row.username@.len() <= USERNAME_SIZE,
        row.email@.len() <= EMAIL_SIZE,
    ensures
        buf@ == spec_serialize_row(row@),
        buf@.len() == ROW_SIZE,
{
    proof {
        lemma_constant_values();
    }
    let mut buf: Vec<u8> = Vec::new();
    buf.push((row.id % 0x100) as u8);
    buf.push(((row.id / 0x100) % 0x100) as u8);
    buf.push(((row.id / 0x10000) % 0x100) as u8);
    buf.push(((row.id / 0x1000000) % 0x100) as u8);
    let username_len: usize = row.username.len();
    let mut k: usize = 0;
    while k < username_len
        invariant
            k <= username_len,
            username_len == row.username@.len(),
            buf@.len() == USERNAME_OFFSET + k,
            forall|i: int| 0 <= i < USERNAME_OFFSET ==> buf@[i] == spec_u32_le_bytes(row.id)[i],
            forall|i: int|
                0 <= i < k ==> #[trigger] buf@[USERNAME_OFFSET + i] == row.username@[i],
        decreases username_len - k,
    {
        buf.push(row.username[k]);
        k = k + 1;
    }
    while k < USERNAME_SIZE
        invariant
            username_len <= k <= USERNAME_SIZE,
            username_len == row.username@.len(),
            buf@.len() == USERNAME_OFFSET + k,
            forall|i: int| 0 <= i < USERNAME_OFFSET ==> buf@[i] == spec_u32_le_bytes(row.id)[i],
            forall|i: int|
                0 <= i < username_len ==> #[trigger] buf@[USERNAME_OFFSET + i]
                    == row.username@[i],
            forall|i: int| username_len <= i < k ==> #[trigger] buf@[USERNAME_OFFSET + i] == 0u8,
        decreases USERNAME_SIZE - k,
    {
        buf.push(0u8);
        k = k + 1;
    }
    let email_len: usize = row.email.len();
    let mut m: usize = 0;
    while m < email_len
        invariant
            m <= email_len,
            email_len == row.email@.len(),
            username_len == row.username@.len(),
            username_len <= USERNAME_SIZE,
            buf@.len() == EMAIL_OFFSET + m,
            forall|i: int| 0 <= i < USERNAME_OFFSET ==> buf@[i] == spec_u32_le_bytes(row.id)[i],
            forall|i: int|
                0 <= i < username_len ==> #[trigger] buf@[USERNAME_OFFSET + i]
                    == row.username@[i],
            forall|i: int| username_len <= i < USERNAME_SIZE ==> #[trigger] buf@[USERNAME_OFFSET + i] == 0u8,
            forall|i: int| 0 <= i < m ==> #[trigger] buf@[EMAIL_OFFSET + i] == row.email@[i],
        decreases email_len - m,
    {
        buf.push(row.email[m]);
        m = m + 1;
    }
    while m < EMAIL_SIZE
        invariant
            email_len <= m <= EMAIL_SIZE,
            email_len == row.email@.len(),
            username_len == row.username@.len(),
            username_len <= USERNAME_SIZE,
            buf@.len() == EMAIL_OFFSET + m,
            forall|i: int| 0 <= i < USERNAME_OFFSET ==> buf@[i] == spec_u32_le_bytes(row.id)[i],
            forall|i: int|
                0 <= i < username_len ==> #[trigger] buf@[USERNAME_OFFSET + i]
                    == row.username@[i],
            forall|i: int| username_len <= i < USERNAME_SIZE ==> #[trigger] buf@[USERNAME_OFFSET + i] == 0u8,
            forall|i: int|
                0 <= i < email_len ==> #[trigger] buf@[EMAIL_OFFSET + i] == row.email@[i],
            forall|i: int| email_len <= i < m ==> #[trigger] buf@[EMAIL_OFFSET + i] == 0u8,
        decreases EMAIL_SIZE - m,
    {
        buf.push(0u8);
        m = m + 1;
    }
    proof {
        let s = spec_serialize_row(row@);
        assert forall|j: int| 0 <= j < ROW_SIZE implies buf@[j] == s[j] by {
            if j < USERNAME_OFFSET {
                assert(buf@[j] == spec_u32_le_bytes(row.id)[j]);
            } else if j < EMAIL_OFFSET {
                let i = j - USERNAME_OFFSET;
                if i < username_len {
                    assert(buf@[USERNAME_OFFSET + i] == row.username@[i]);
                } else {
                    assert(buf@[USERNAME_OFFSET + i] == 0u8);
                }
            } else {
                let i = j - EMAIL_OFFSET;
                if i < email_len {
                    assert(buf@[EMAIL_OFFSET + i] == row.email@[i]);
                } else {
                    assert(buf@[EMAIL_OFFSET + i] == 0u8);
                }
            }
        }
        assert(buf@ =~= s);
    }
    buf
}

/// Deserializes one value slot back into an owned row: the inverse of
/// `serialize_row`, with the padding still in place.
pub fn deserialize_row(buf: &Vec<u8>) -> (row: Row)
    requires
        buf@.len() == ROW_SIZE,
    ensures
        row@ == spec_deserialize_row(buf@),
{
    proof {
        lemma_constant_values();
    }
    let id = read_u32_le(buf, ID_OFFSET);
    let username = copy_range(buf, USERNAME_OFFSET, USERNAME_SIZE);
    let email = copy_range(buf, EMAIL_OFFSET, EMAIL_SIZE);
    Row { id, username, email }
}

/// `s` with its trailing zero bytes removed.
pub open spec fn spec_trim_trailing_zeros(s: Seq<u8>) -> Seq<u8>
    decreases s.len(),
{
    if s.len() > 0 && s.last() == 0 {
        spec_trim_trailing_zeros(s.drop_last())
    } else {
        s
    }
}

/// `s` with its leading zero bytes removed.
pub open spec fn spec_trim_leading_zeros(s: Seq<u8>) -> Seq<u8>
    decreases s.len(),
{
    if s.len() > 0 && s.first() == 0 {
        spec_trim_leading_zeros(s.drop_first())
    } else {
        s
    }
}

/// `s` with zero bytes removed from both ends: how a string field is shown.
pub open spec fn spec_trim_zeros(s: Seq<u8>) -> Seq<u8> {
    spec_trim_leading_zeros(spec_trim_trailing_zeros(s))
}

/// Padding does not change the displayed value: trimming recovers the same
/// bytes before and after zero-padding.
pub proof fn lemma_trim_of_padded(s: Seq<u8>, width: int)
    requires
        s.len() <= width,
    ensures
        spec_trim_zeros(spec_pad(s, width)) == spec_trim_zeros(s),
    decreases width - s.len(),
{
    if s.len() == width {
        assert(spec_pad(s, width) =~= s);
    } else {
        assert(spec_pad(s, width).last() == 0);
        assert(spec_pad(s, width).drop_last() =~= spec_pad(s, width - 1));
        lemma_trim_of_padded(s, width - 1);
    }
}

/// The table contents after a sequence of inserts, starting from `init`:
/// each insert appends the row zero-padded.
pub open spec fn spec_rows_after_inserts(init: Seq<RowView>, inserted: Seq<RowView>) -> Seq<
    RowView,
>
    decreases inserted.len(),
{
    if inserted.len() == 0 {
        init
    } else {
        spec_rows_after_inserts(init.push(spec_padded_row(inserted[0])), inserted.drop_first())
    }
}

proof fn lemma_rows_after_inserts_general(init: Seq<RowView>, inserted: Seq<RowView>)
    ensures
        spec_rows_after_inserts(init, inserted) == init + inserted.map_values(
            |r: RowView| spec_padded_row(r),
        ),
    decreases inserted.len(),
{
    if inserted.len() == 0 {
        assert(spec_rows_after_inserts(init, inserted) =~= init + inserted.map_values(
            |r: RowView| spec_padded_row(r),
        ));
    } else {
        lemma_rows_after_inserts_general(
            init.push(spec_padded_row(inserted[0])),
            inserted.drop_first(),
        );
        assert(init.push(spec_padded_row(inserted[0])) + inserted.drop_first().map_values(
            |r: RowView| spec_padded_row(r),
        ) =~= init + inserted.map_values(|r: RowView| spec_padded_row(r)));
    }
}

/// Insert-then-select round trip: a sequence of inserts into an empty table
/// stores, and a subsequent select returns, exactly the inserted rows, in
/// insertion order, with usernames and emails zero-padded.  Each insert
/// appends one padded row (the ensures of `execute_statement`), and a
/// select hands the stored rows back unchanged.
pub proof fn lemma_insert_select_round_trip(inserted: Seq<RowView>)
    ensures
        spec_rows_after_inserts(Seq::<RowView>::empty(), inserted) == inserted.map_values(
            |r: RowView| spec_padded_row(r),
        ),
{
    lemma_rows_after_inserts_general(Seq::<RowView>::empty(), inserted);
    assert(Seq::<RowView>::empty() + inserted.map_values(|r: RowView| spec_padded_row(r))
        =~= inserted.map_values(|r: RowView| spec_padded_row(r)));
}

/// Capacity boundary: a sequence of inserts into an empty table stores
/// exactly one row per insert, so the table reaches its capacity of
/// `LEAF_NODE_MAX_CELLS` rows only after that many inserts; at capacity
/// `execute_statement` reports `TableFull` and alters no page content
/// (its ensures).
pub proof fn lemma_capacity_boundary(inserted: Seq<RowView>)
    ensures
        spec_rows_after_inserts(Seq::<RowView>::empty(), inserted).len() == inserted.len(),
{
    lemma_insert_select_round_trip(inserted);
}

/// Removes the zero-byte padding from both ends of `v`.
fn trim_zeros(v: &Vec<u8>) -> (r: Vec<u8>)
    ensures
        r@ == spec_trim_zeros(v@),
{
    let n: usize = v.len();
    proof {
        assert(v@.subrange(0, n as int) =~= v@);
    }
    let mut end: usize = n;
    while end > 0 && v[end - 1] == 0
        invariant
            end <= n,
            n == v@.len(),
            spec_trim_trailing_zeros(v@) == spec_trim_trailing_zeros(v@.subrange(0, end as int)),
        decreases end,
    {
        proof {
            assert(v@.subrange(0, end as int).drop_last() =~= v@.subrange(0, end as int - 1));
        }
        end = end - 1;
    }
    proof {
        assert(spec_trim_trailing_zeros(v@.subrange(0, end as int)) == v@.subrange(0, end as int));
    }
    let mut start: usize = 0;
    while start < end && v[start] == 0
        invariant
            start <= end <= n,
            n == v@.len(),
            spec_trim_trailing_zeros(v@) == v@.subrange(0, end as int),
            spec_trim_leading_zeros(v@.subrange(0, end as int)) == spec_trim_leading_zeros(
                v@.subrange(start as int, end as int),
            ),
        decreases end - start,
    {
        proof {
            assert(v@.subrange(start as int, end as int).drop_first() =~= v@.subrange(
                start as int + 1,
                end as int,
            ));
        }
        start = start + 1;
    }
    proof {
        assert(spec_trim_leading_zeros(v@.subrange(start as int, end as int)) == v@.subrange(
            start as int,
            end as int,
        ));
    }
    copy_range(v, start, end - start)
}

impl ResultRow {
    /// The username with the zero-byte padding trimmed from both ends.
    pub fn trimmed_username(&self) -> (r: Vec<u8>)
        ensures
            r@ == spec_trim_zeros(self.username@),
    {
        trim_zeros(&self.username)
    }

    /// The email with the zero-byte padding trimmed from both ends.
    pub fn trimmed_email(&self) -> (r: Vec<u8>)
        ensures
            r@ == spec_trim_zeros(self.email@),
    {
        trim_zeros(&self.email)
    }
}

/// Tokens of `s` split at single spaces, as `str::split(' ')` yields them:
/// an empty input gives one empty token, and each space ends a token, so
/// consecutive spaces give empty tokens.
pub open spec fn spec_tokens(s: Seq<u8>) -> Seq<Seq<u8>>
    decreases s.len(),
{
    if s.len() == 0 {
        seq![Seq::<u8>::empty()]
    } else {
        let prev = spec_tokens(s.drop_last());
        if s.last() == 32 {
            prev.push(Seq::<u8>::empty())
        } else {
            prev.update(prev.len() - 1, prev.last().push(s.last()))
        }
    }
}

/// The views of a sequence of owned tokens.
pub open spec fn spec_token_views(toks: Seq<Vec<u8>>) -> Seq<Seq<u8>> {
    Seq::new(toks.len(), |i: int| toks[i]@)
}

/// Splits the input at single spaces.
fn split_tokens(bytes: &Vec<u8>) -> (toks: Vec<Vec<u8>>)
    ensures
        spec_token_views(toks@) == spec_tokens(bytes@),
        toks@.len() >= 1,
{
    let n: usize = bytes.len();
    let mut done: Vec<Vec<u8>> = Vec::new();
    let mut cur: Vec<u8> = Vec::new();
    let mut k: usize = 0;
    while k < n
        invariant
            k <= n,
            n == bytes@.len(),
            spec_tokens(bytes@.subrange(0, k as int)) == spec_token_views(done@).push(cur@),
        decreases n - k,
    {
        proof {
            assert(bytes@.subrange(0, k as int + 1).drop_last() =~= bytes@.subrange(0, k as int));
        }
        let ghost done_before = done@;
        let ghost cur_before = cur@;
        let b = bytes[k];
        if b == 32 {
            done.push(cur);
            cur = Vec::new();
            proof {
                assert(spec_token_views(done@).push(cur@) =~~= spec_token_views(
                    done_before,
                ).push(cur_before).push(Seq::<u8>::empty()));
            }
        } else {
            cur.push(b);
            proof {
                let prev = spec_token_views(done_before).push(cur_before);
                assert(spec_token_views(done@).push(cur@) =~~= prev.update(
                    prev.len() - 1,
                    prev.last().push(b),
                ));
            }
        }
        k = k + 1;
    }
    proof {
        assert(bytes@.subrange(0, n as int) =~= bytes@);
    }
    done.push(cur);
    proof {
        assert(spec_token_views(done@) =~~= spec_tokens(bytes@));
    }
    done
}

/// Whether `s` begins with `prefix`.
pub open spec fn spec_starts_with(s: Seq<u8>, prefix: Seq<u8>) -> bool {
    s.len() >= prefix.len() && s.subrange(0, prefix.len() as int) == prefix
}

/// The byte string `insert`.
pub open spec fn spec_insert_verb() -> Seq<u8> {
    seq![105u8, 110u8, 115u8, 101u8, 114u8, 116u8]
}

/// The byte string `select`.
pub open spec fn spec_select_verb() -> Seq<u8> {
    seq![115u8, 101u8, 108u8, 101u8, 99u8, 116u8]
}

fn insert_verb() -> (v: Vec<u8>)
    ensures
        v@ == spec_insert_verb(),
{
    let mut v: Vec<u8> = Vec::new();
    v.push(105u8);
    v.push(110u8);
    v.push(115u8);
    v.push(101u8);
    v.push(114u8);
    v.push(116u8);
    proof {
        assert(v@ =~= spec_insert_verb());
    }
    v
}

fn select_verb() -> (v: Vec<u8>)
    ensures
        v@ == spec_select_verb(),
{
    let mut v: Vec<u8> = Vec::new();
    v.push(115u8);
    v.push(101u8);
    v.push(108u8);
    v.push(101u8);
    v.push(99u8);
    v.push(116u8);
    proof {
        assert(v@ =~= spec_select_verb());
    }
    v
}

fn starts_with_bytes(bytes: &Vec<u8>, prefix: &Vec<u8>) -> (r: bool)
    ensures
        r == spec_starts_with(bytes@, prefix@),
{
    let n: usize = prefix.len();
    if bytes.len() < n {
        return false;
    }
    let mut k: usize = 0;
    while k < n
        invariant
            k <= n,
            n == prefix@.len(),
            n <= bytes@.len(),
            forall|i: int| 0 <= i < k ==> bytes@[i] == prefix@[i],
        decreases n - k,
    {
        if bytes[k] != prefix[k] {
            proof {
                assert(bytes@.subrange(0, n as int)[k as int] == bytes@[k as int]);
            }
            return false;
        }
        k = k + 1;
    }
    proof {
        assert(bytes@.subrange(0, n as int) =~= prefix@);
    }
    true
}

/// Whether every byte of `s` is a decimal digit.
pub open spec fn spec_all_digits(s: Seq<u8>) -> bool {
    forall|i: int| 0 <= i < s.len() ==> 48 <= #[trigger] s[i] <= 57
}

/// Numeric value of a digit string.
pub open spec fn spec_digits_value(s: Seq<u8>) -> int
    decreases s.len(),
{
    if s.len() == 0 {
        0
    } else {
        spec_digits_value(s.drop_last()) * 10 + (s.last() - 48)
    }
}

/// What `str::parse::<u32>` accepts: an optional leading `+`, then one or
/// more decimal digits, with the value within range.  A `-` is rejected,
/// as is anything else.
pub open spec fn spec_parse_u32(s: Seq<u8>) -> Option<u32> {
    let t = if s.len() > 0 && s[0] == 43 {
        s.drop_first()
    } else {
        s
    };
    if t.len() > 0 && spec_all_digits(t) && spec_digits_value(t) <= u32::MAX {
        Some(spec_digits_value(t) as u32)
    } else {
        None
    }
}

/// The value of a digit string is non-negative and only grows as digits
/// are appended.
proof fn lemma_digits_value_bounds(s: Seq<u8>, j: int)
    requires
        spec_all_digits(s),
        0 <= j <= s.len(),
    ensures
        0 <= spec_digits_value(s.subrange(0, j)),
        spec_digits_value(s.subrange(0, j)) <= spec_digits_value(s),
    decreases s.len() - j,
{
    if j == s.len() {
        assert(s.subrange(0, j) =~= s);
        lemma_digits_value_nonneg(s);
    } else {
        lemma_digits_value_bounds(s, j + 1);
        assert(s.subrange(0, j + 1).drop_last() =~= s.subrange(0, j));
        lemma_digits_value_nonneg(s.subrange(0, j));
    }
}

proof fn lemma_digits_value_nonneg(s: Seq<u8>)
    requires
        spec_all_digits(s),
    ensures
        spec_digits_value(s) >= 0,
    decreases s.len(),
{
    if s.len() > 0 {
        assert(spec_all_digits(s.drop_last()));
        lemma_digits_value_nonneg(s.drop_last());
    }
}

/// Parses a decimal u32 as `str::parse::<u32>` does.
fn parse_u32(bytes: &Vec<u8>) -> (r: Option<u32>)
    ensures
        r == spec_parse_u32(bytes@),
{
    let n: usize = bytes.len();
    let start: usize = if n > 0 && bytes[0] == 43 {
        1
    } else {
        0
    };
    let ghost t = if bytes@.len() > 0 && bytes@[0] == 43 {
        bytes@.drop_first()
    } else {
        bytes@
    };
    proof {
        assert(t =~= bytes@.subrange(start as int, n as int));
    }
    if n == start {
        return None;
    }
    let mut acc: u32 = 0;
    let mut k: usize = start;
    while k < n
        invariant
            start <= k <= n,
            n == bytes@.len(),
            t == bytes@.subrange(start as int, n as int),
            t == (if bytes@.len() > 0 && bytes@[0] == 43 {
                bytes@.drop_first()
            } else {
                bytes@
            }),
            t.len() == n - start,
            spec_all_digits(t.subrange(0, k as int - start as int)),
            acc == spec_digits_value(t.subrange(0, k as int - start as int)),
        decreases n - k,
    {
        let b = bytes[k];
        proof {
            assert(t[k as int - start as int] == bytes@[k as int]);
            assert(t.subrange(0, k as int + 1 - start as int).drop_last() =~= t.subrange(
                0,
                k as int - start as int,
            ));
        }
        if b < 48 || b > 57 {
            proof {
                assert(!spec_all_digits(t));
            }
            return None;
        }
        let d = (b - 48) as u32;
        if acc > (u32::MAX - d) / 10 {
            proof {
                assert(acc * 10 + d > u32::MAX) by {
                    vstd::arithmetic::div_mod::lemma_fundamental_div_mod(
                        (u32::MAX - d) as int,
                        10,
                    );
                }
                assert(spec_digits_value(t.subrange(0, k as int + 1 - start as int)) > u32::MAX);
                if spec_all_digits(t) {
                    lemma_digits_value_bounds(t, k as int + 1 - start as int);
                }
            }
            return None;
        }
        acc = acc * 10 + d;
        k = k + 1;
    }
    proof {
        assert(t.subrange(0, n as int - start as int) =~= t);
    }
    Some(acc)
}

/// Parses one input line into a statement, as the prompt's external parser
/// does: `insert <id> <username> <email>` or `select`, going by the verb
/// the line starts with.
///
/// Rejects with `Sql` an unknown verb or a malformed insert, with
/// `InvalidId` an id that does not parse as a u32, and with `TooLong` a
/// username over `USERNAME_SIZE` or an email over `EMAIL_SIZE` bytes, in
/// that order.
pub fn prepare_statement(original_input: &str) -> (r: Result<Statement, StatementError>)
    ensures
        ({
            let s = original_input.spec_bytes();
            let toks = spec_tokens(s);
            &&& (spec_starts_with(s, spec_insert_verb()) ==> {
                &&& (toks.len() <= 3 ==> r == Err::<Statement, StatementError>(
                    StatementError::Sql,
                ))
                &&& (toks.len() > 3 && spec_parse_u32(toks[1]) is None ==> r == Err::<
                    Statement,
                    StatementError,
                >(StatementError::InvalidId))
                &&& (toks.len() > 3 && spec_parse_u32(toks[1]) is Some ==> {
                    &&& ((toks[2].len() > USERNAME_SIZE || toks[3].len() > EMAIL_SIZE) ==> r
                        == Err::<Statement, StatementError>(StatementError::TooLong))
                    &&& (toks[2].len() <= USERNAME_SIZE && toks[3].len() <= EMAIL_SIZE ==> {
                        &&& r is Ok
                        &&& r->Ok_0 is Insert
                        &&& r->Ok_0->row.id == spec_parse_u32(toks[1])->Some_0
                        &&& r->Ok_0->row.username@ == toks[2]
                        &&& r->Ok_0->row.email@ == toks[3]
                    })
                })
            })
            &&& (!spec_starts_with(s, spec_insert_verb()) && spec_starts_with(
                s,
                spec_select_verb(),
            ) ==> r == Ok::<Statement, StatementError>(Statement::Select))
            &&& (!spec_starts_with(s, spec_insert_verb()) && !spec_starts_with(
                s,
                spec_select_verb(),
            ) ==> r == Err::<Statement, StatementError>(StatementError::Sql))
        }),
{
    proof {
        lemma_constant_values();
    }
    let bytes: Vec<u8> = original_input.as_bytes_vec();
    let iv = insert_verb();
    let sv = select_verb();
    if starts_with_bytes(&bytes, &iv) {
        let toks = split_tokens(&bytes);
        let ghost tv = spec_tokens(bytes@);
        if toks.len() <= 3 {
            return Err(StatementError::Sql);
        }
        proof {
            assert(toks@[1]@ == tv[1]);
            assert(toks@[2]@ == tv[2]);
            assert(toks@[3]@ == tv[3]);
        }
        let id = match parse_u32(&toks[1]) {
            Some(v) => v,
            None => {
                return Err(StatementError::InvalidId);
            },
        };
        let username = vstd::slice::slice_to_vec(toks[2].as_slice());
        let email = vstd::slice::slice_to_vec(toks[3].as_slice());
        if username.len() > USERNAME_SIZE || email.len() > EMAIL_SIZE {
            return Err(StatementError::TooLong);
        }
        Ok(Statement::Insert { row: Row { id, username, email } })
    } else if starts_with_bytes(&bytes, &sv) {
        Ok(Statement::Select)
    } else {
        Err(StatementError::Sql)
    }
}

/// A statement the engine executes.
pub enum Statement {
    Insert { row: Row },
    Select,
}

/// Why the external parser rejects an input line.
#[derive(Debug)]
pub enum StatementError {
    /// Unknown verb or malformed statement.
    Sql,
    /// A string field exceeds its fixed width.
    TooLong,
    /// The id does not parse as an unsigned 32-bit integer.
    InvalidId,
}

/// What can go wrong while executing a statement.
#[derive(Debug)]
pub enum VMErr {
    /// The row count is at capacity.
    TableFull,
    /// A value slot could not be read back whole.
    RowRead,
    /// A write into a value slot failed.
    Write,
    /// A table failure, wrapped.
    Table(TableError),
}

/// A successful statement's result.
#[derive(Debug)]
pub enum VMResult {
    Rows(Vec<ResultRow>),
    Success,
}

/// The execution engine: owns the table and maps an insert to
/// `end-cursor -> insert` and a select to `start-cursor -> scan`.
pub struct VirtualMachine {
    pub table: Table,
}

impl VirtualMachine {
    /// The engine is usable exactly when its table is well-formed.
    pub open spec fn wf(&self) -> bool {
        self.table.wf()
    }

    /// The rows currently stored.
    pub open spec fn rows(&self) -> Seq<RowView> {
        spec_table_rows(self.table)
    }

    /// Executes one statement.
    ///
    /// An insert appends the row, zero-padded, when the table holds fewer
    /// than `LEAF_NODE_MAX_CELLS` rows; at exactly that many it fails with
    /// `TableFull`, and beyond (a corrupt cell count) with
    /// `SplitNotImplemented`; in every failing case no page content
    /// changes.  A select returns the stored rows in insertion order.
    #[verifier::loop_isolation(false)]
    pub fn execute_statement(&mut self, statement: Statement) -> (r: Result<VMResult, VMErr>)
        requires
            old(self).wf(),
            statement matches Statement::Insert { row } ==> row.username@.len() <= USERNAME_SIZE
                && row.email@.len() <= EMAIL_SIZE,
        ensures
            final(self).wf(),
            final(self).table.pager.disk@ == old(self).table.pager.disk@,
            match statement {
                Statement::Insert { row } => {
                    let n = old(self).rows().len() as int;
                    &&& (n < LEAF_NODE_MAX_CELLS ==> {
                        &&& r == Ok::<VMResult, VMErr>(VMResult::Success)
                        &&& final(self).rows() == old(self).rows().push(spec_padded_row(row@))
                        &&& (forall|p: int|
                            p != 0 ==> #[trigger] final(self).table.pager.page_view(p) == old(
                                self,
                            ).table.pager.page_view(p))
                    })
                    &&& (n == LEAF_NODE_MAX_CELLS ==> r == Err::<VMResult, VMErr>(VMErr::TableFull)
                        && (forall|p: int|
                        #[trigger] final(self).table.pager.page_view(p) == old(
                            self,
                        ).table.pager.page_view(p)))
                    &&& (n > LEAF_NODE_MAX_CELLS ==> r == Err::<VMResult, VMErr>(
                        VMErr::Table(TableError::SplitNotImplemented),
                    ) && (forall|p: int|
                        #[trigger] final(self).table.pager.page_view(p) == old(
                            self,
                        ).table.pager.page_view(p)))
                },
                Statement::Select => {
                    &&& (forall|p: int|
                        #[trigger] final(self).table.pager.page_view(p) == old(
                            self,
                        ).table.pager.page_view(p))
                    &&& (old(self).rows().len() <= LEAF_NODE_MAX_CELLS ==> {
                        &&& r is Ok
                        &&& r->Ok_0 is Rows
                        &&& r->Ok_0->Rows_0@.len() == old(self).rows().len()
                        &&& (forall|i: int|
                            0 <= i < old(self).rows().len() ==> (#[trigger] r->Ok_0->Rows_0@[i])@
                                == old(self).rows()[i])
                    })
                    &&& (old(self).rows().len() > LEAF_NODE_MAX_CELLS ==> r == Err::<
                        VMResult,
                        VMErr,
                    >(VMErr::Table(TableError::BadPageSize)))
                },
            },
    {
        proof {
            lemma_constant_values();
        }
        match statement {
            Statement::Insert { row } => {
                let cursor = match self.table.end() {
                    Ok(c) => c,
                    Err(e) => {
                        return Err(VMErr::Table(e));
                    },
                };
                if cursor.cell_num == LEAF_NODE_MAX_CELLS as u32 {
                    return Err(VMErr::TableFull);
                }
                let bytes = serialize_row(&row);
                let ghost pv = self.table.page0();
                match cursor.insert(&mut self.table, row.id, &bytes) {
                    Ok(_) => {
                        proof {
                            let n = spec_leaf_num_cells(pv) as int;
                            let nv = self.table.page0();
                            lemma_codec_round_trip(row@);
                            assert forall|i: int| 0 <= i < n implies spec_deserialize_row(
                                spec_leaf_value(nv, i),
                            ) == spec_deserialize_row(spec_leaf_value(pv, i)) by {
                                lemma_cell_parts(nv, i);
                                lemma_cell_parts(pv, i);
                            }
                            assert(spec_page_rows(nv) =~= spec_page_rows(pv).push(
                                spec_padded_row(row@),
                            ));
                        }
                        Ok(VMResult::Success)
                    },
                    Err(e) => Err(VMErr::Table(e)),
                }
            },
            Statement::Select => {
                let ghost count = spec_leaf_num_cells(old(self).table.page0()) as int;
                let mut rows: Vec<ResultRow> = Vec::new();
                let mut cursor = match self.table.start() {
                    Ok(c) => c,
                    Err(e) => {
                        return Err(VMErr::Table(e));
                    },
                };
                while !cursor.end_of_table
                    invariant
                        self.wf(),
                        self.table.pager.disk@ == old(self).table.pager.disk@,
                        forall|p: int|
                            #[trigger] self.table.pager.page_view(p) == old(
                                self,
                            ).table.pager.page_view(p),
                        count == spec_leaf_num_cells(old(self).table.page0()),
                        cursor.page_num == 0,
                        cursor.cell_num <= count,
                        cursor.cell_num <= LEAF_NODE_MAX_CELLS,
                        cursor.end_of_table == (cursor.cell_num >= count),
                        rows@.len() == cursor.cell_num,
                        forall|i: int|
                            0 <= i < rows@.len() ==> (#[trigger] rows@[i])@
                                == spec_deserialize_row(
                                spec_leaf_value(old(self).table.page0(), i),
                            ),
                    decreases count - cursor.cell_num,
                {
                    let buf = match cursor.value(&mut self.table) {
                        Ok(b) => b,
                        Err(e) => {
                            return Err(VMErr::Table(e));
                        },
                    };
                    let row = deserialize_row(&buf);
                    rows.push(ResultRow { id: row.id, username: row.username, email: row.email });
                    cursor.advance(&mut self.table);
                }
                Ok(VMResult::Rows(rows))
            },
        }
    }
}

} // verus!
