//! The structure table: a run of records, each a four-byte header, a
//! formatted area and a set of strings closed by a double NUL.
use vstd::prelude::*;

verus! {

/// Type code of the record that ends the table.
pub const END_OF_TABLE: u8 = 127;

/// Size in bytes of a record header.
pub const HEADER_SIZE: usize = 4;

/// The fixed prefix of every record.
#[derive(Clone, Copy, Default, Debug, PartialEq, Eq, Structural)]
pub struct Header {
    pub kind: u8,
    pub len: u8,
    pub handle: u16,
}

/// Byte `k` of `d`, or zero past either end.
pub open spec fn byte_or_zero(d: Seq<u8>, k: int) -> u8 {
    if 0 <= k < d.len() {
        d[k]
    } else {
        0
    }
}

/// The header that starts at `i`; bytes past the end of `d` read as zero.
pub open spec fn header_at(d: Seq<u8>, i: int) -> Header {
    Header {
        kind: byte_or_zero(d, i),
        len: byte_or_zero(d, i + 1),
        handle: (byte_or_zero(d, i + 2) + 256 * byte_or_zero(d, i + 3)) as u16,
    }
}

/// Where the cursor stands after reading up to `n` bytes from `i`.
pub open spec fn advance(d: Seq<u8>, i: int, n: int) -> int {
    if i + n <= d.len() {
        i + n
    } else if i <= d.len() {
        d.len() as int
    } else {
        i
    }
}

/// Reads the header at `pos`. Where fewer than four bytes remain, only those
/// are read and the rest of the header is zero. Returns the header and the
/// position after the bytes read.
pub fn read_header(data: &[u8], pos: usize) -> (r: (Header, usize))
    requires
        pos <= data@.len(),
    ensures
        r.0 == header_at(data@, pos as int),
        r.1 == advance(data@, pos as int, HEADER_SIZE as int),
{
    let mut b: [u8; 4] = [0, 0, 0, 0];
    let mut i: usize = pos;
    let mut j: usize = 0;
    while i < data.len() && j < HEADER_SIZE
        invariant
            pos <= i <= data@.len(),
            j == i - pos,
            j <= HEADER_SIZE,
            forall|k: int| 0 <= k < 4 ==> b@[k] == (if k < j { data@[pos + k] } else { 0 }),
        decreases HEADER_SIZE - j,
    {
        b[j] = data[i];
        i = i + 1;
        j = j + 1;
    }
    let h = Header { kind: b[0], len: b[1], handle: (b[2] as u16) + (b[3] as u16) * 256 };
    (h, i)
}

/// A decoded record: its header, its formatted area and its strings.
#[derive(Clone, Debug, PartialEq)]
pub struct Table {
    pub header: Header,
    pub data: Vec<u8>,
    pub strings: Vec<String>,
}

/// What a record holds, as mathematical values.
pub struct TableView {
    pub header: Header,
    pub data: Seq<u8>,
    pub strings: Seq<Seq<char>>,
}

/// The characters of a list of strings.
pub open spec fn strings_view(v: Seq<String>) -> Seq<Seq<char>> {
    v.map_values(|s: String| s@)
}

impl View for Table {
    type V = TableView;

    open spec fn view(&self) -> TableView {
        TableView { header: self.header, data: self.data@, strings: strings_view(self.strings@) }
    }
}

/// The records of a list of tables, as mathematical values.
pub open spec fn tables_view(v: Seq<Table>) -> Seq<TableView> {
    v.map_values(|t: Table| t@)
}

impl Table {
    /// The string that 1-based `index` refers to; `None` for index 0 and for
    /// an index past the last string.
    pub fn get_str(&self, index: u8) -> (r: Option<&String>)
        ensures
            r is Some <==> 1 <= index <= self.strings@.len(),
            r matches Some(s) ==> s@ == self.strings@[index - 1]@,
    {
        if index > 0 && (index as usize) <= self.strings.len() {
            Some(&self.strings[(index - 1) as usize])
        } else {
            None
        }
    }
}

/// The string that bytes stand for, one character per byte.
pub open spec fn chars_of(b: Seq<u8>) -> Seq<char> {
    b.map_values(|x: u8| x as char)
}

/// Position of the first NUL at or after `i`, or the end of `d`.
pub open spec fn run_end(d: Seq<u8>, i: int) -> int
    decreases d.len() - i,
{
    if i < 0 || i >= d.len() || d[i] == 0 {
        i
    } else {
        run_end(d, i + 1)
    }
}

/// Where the cursor stands after the run that starts at `i` and its NUL.
pub open spec fn after_run(d: Seq<u8>, i: int) -> int {
    if run_end(d, i) < d.len() {
        run_end(d, i) + 1
    } else {
        run_end(d, i)
    }
}

/// The strings that start at `i`, and where the cursor stands after them.
/// The runs up to each NUL are read in turn. A non-empty run is stored. An
/// empty run is never stored: as the first run it is passed over, later it
/// ends the list. Reading also stops at the end of `d`.
pub open spec fn strings_from(d: Seq<u8>, i: int, first: bool) -> (Seq<Seq<char>>, int)
    decreases d.len() - i,
    via strings_from_decreases
{
    if i < 0 || i >= d.len() {
        (Seq::empty(), i)
    } else {
        let e = run_end(d, i);
        let next = after_run(d, i);
        if e == i {
            if first {
                strings_from(d, next, false)
            } else {
                (Seq::empty(), next)
            }
        } else {
            let rest = strings_from(d, next, false);
            (seq![chars_of(d.subrange(i, e))].add(rest.0), rest.1)
        }
    }
}

/// The run from `i` stops at a NUL or at the end, and holds no NUL.
pub proof fn lemma_run_end(d: Seq<u8>, i: int)
    requires
        0 <= i <= d.len(),
    ensures
        i <= run_end(d, i) <= d.len(),
        run_end(d, i) < d.len() ==> d[run_end(d, i)] == 0,
        forall|k: int| i <= k < run_end(d, i) ==> d[k] != 0,
    decreases d.len() - i,
{
    if i < d.len() && d[i] != 0 {
        lemma_run_end(d, i + 1);
    }
}

#[via_fn]
proof fn strings_from_decreases(d: Seq<u8>, i: int, first: bool) {
    if 0 <= i < d.len() {
        lemma_run_end(d, i);
    }
}

/// The strings from `i` end no earlier than `i` and no later than the end
/// of `d`.
pub proof fn lemma_strings_from_end(d: Seq<u8>, i: int, first: bool)
    requires
        0 <= i <= d.len(),
    ensures
        i <= strings_from(d, i, first).1 <= d.len(),
    decreases d.len() - i,
{
    if i < d.len() {
        lemma_run_end(d, i);
        lemma_strings_from_end(d, after_run(d, i), false);
    }
}

/// Why a structure table could not be decoded.
#[derive(Clone, Copy, Debug, PartialEq, Eq, Structural)]
pub enum DecodeError {
    /// The record at `offset` gives a length `len` below the size of its own
    /// header.
    BadLength { offset: usize, len: u8 },
}

/// The formatted area of the record at `i`: `len - 4` bytes after the
/// header, zero where `d` ends early.
pub open spec fn record_data(d: Seq<u8>, i: int) -> Seq<u8> {
    let s = advance(d, i, HEADER_SIZE as int);
    Seq::new((header_at(d, i).len - HEADER_SIZE) as nat, |k: int| byte_or_zero(d, s + k))
}

/// Where the strings of the record at `i` start.
pub open spec fn record_strings_start(d: Seq<u8>, i: int) -> int {
    advance(d, advance(d, i, HEADER_SIZE as int), header_at(d, i).len - HEADER_SIZE)
}

/// The record at `i`.
pub open spec fn record_at(d: Seq<u8>, i: int) -> TableView {
    TableView {
        header: header_at(d, i),
        data: record_data(d, i),
        strings: strings_from(d, record_strings_start(d, i), true).0,
    }
}

/// Where the record after the one at `i` starts.
pub open spec fn record_end(d: Seq<u8>, i: int) -> int {
    strings_from(d, record_strings_start(d, i), true).1
}

/// `r` with `ts` put in front of its records; an error stays as it is.
pub open spec fn prepend(ts: Seq<TableView>, r: Result<Seq<TableView>, DecodeError>) -> Result<
    Seq<TableView>,
    DecodeError,
> {
    match r {
        Ok(s) => Ok(ts + s),
        Err(e) => Err(e),
    }
}

/// The records from `i` on. Decoding stops at the end of `d` and at a record
/// of type `END_OF_TABLE`, which is not part of the result; a record whose
/// length is below `HEADER_SIZE` makes the whole decoding fail.
pub open spec fn decode_from(d: Seq<u8>, i: int) -> Result<Seq<TableView>, DecodeError>
    decreases d.len() - i,
    via decode_from_decreases
{
    if i < 0 || i >= d.len() {
        Ok(Seq::empty())
    } else if header_at(d, i).kind == END_OF_TABLE {
        Ok(Seq::empty())
    } else if header_at(d, i).len < HEADER_SIZE {
        Err(DecodeError::BadLength { offset: i as usize, len: header_at(d, i).len })
    } else {
        prepend(seq![record_at(d, i)], decode_from(d, record_end(d, i)))
    }
}

#[via_fn]
proof fn decode_from_decreases(d: Seq<u8>, i: int) {
    if 0 <= i < d.len() && header_at(d, i).len >= HEADER_SIZE {
        lemma_strings_from_end(d, record_strings_start(d, i), true);
    }
}

/// The records of a whole structure table.
pub open spec fn decode(d: Seq<u8>) -> Result<Seq<TableView>, DecodeError> {
    decode_from(d, 0)
}

/// What a call of `tables` returned, as mathematical values.
pub open spec fn result_view(r: Result<Vec<Table>, DecodeError>) -> Result<
    Seq<TableView>,
    DecodeError,
> {
    match r {
        Ok(v) => Ok(tables_view(v@)),
        Err(e) => Err(e),
    }
}

/// Relies on String::push: the character is appended at the end.
#[verifier::external_body]
fn push_char(s: &mut String, c: char)
    ensures
        final(s)@ == old(s)@.push(c),
{
    s.push(c);
}

/// Reads the non-empty run that starts at `pos`, and the NUL after it if
/// there is one.
fn read_run(data: &[u8], pos: usize) -> (r: (String, usize))
    requires
        pos < data@.len(),
    ensures
        r.0@ == chars_of(data@.subrange(pos as int, run_end(data@, pos as int))),
        r.1 == after_run(data@, pos as int),
{
    proof {
        lemma_run_end(data@, pos as int);
    }
    let mut s = String::new();
    let mut i: usize = pos;
    while i < data.len()
        invariant
            pos <= i <= data@.len(),
            run_end(data@, pos as int) == run_end(data@, i as int),
            s@ == chars_of(data@.subrange(pos as int, i as int)),
        decreases data@.len() - i,
    {
        let b = data[i];
        if b == 0 {
            return (s, i + 1);
        }
        proof {
            assert(chars_of(data@.subrange(pos as int, i + 1)) =~= chars_of(
                data@.subrange(pos as int, i as int),
            ).push(b as char));
        }
        push_char(&mut s, b as char);
        i = i + 1;
    }
    (s, i)
}

/// Reads the strings that start at `pos`.
fn read_strings(data: &[u8], pos: usize) -> (r: (Vec<String>, usize))
    requires
        pos <= data@.len(),
    ensures
        (strings_view(r.0@), r.1 as int) == strings_from(data@, pos as int, true),
{
    let ghost d = data@;
    let mut strings: Vec<String> = Vec::new();
    let mut i: usize = pos;
    let mut first = true;
    while i < data.len()
        invariant
            pos <= i <= d.len(),
            d == data@,
            strings_from(d, pos as int, true) == (
                strings_view(strings@) + strings_from(d, i as int, first).0,
                strings_from(d, i as int, first).1,
            ),
        decreases d.len() - i,
    {
        proof {
            lemma_run_end(d, i as int);
        }
        if data[i] == 0 {
            if !first {
                assert(strings_view(strings@) + Seq::empty() =~= strings_view(strings@));
                return (strings, i + 1);
            }
            i = i + 1;
            first = false;
        } else {
            let ghost old_view = strings_view(strings@);
            let (s, next) = read_run(data, i);
            strings.push(s);
            proof {
                let rest = strings_from(d, next as int, false);
                assert(strings_view(strings@) =~= old_view.push(s@));
                assert(old_view + (seq![s@] + rest.0) =~= strings_view(strings@) + rest.0);
            }
            i = next;
            first = false;
        }
    }
    assert(strings_view(strings@) + Seq::empty() =~= strings_view(strings@));
    (strings, i)
}

/// Reads `n` bytes from `pos`, zero past the end of `data`.
fn read_data(data: &[u8], pos: usize, n: usize) -> (r: (Vec<u8>, usize))
    requires
        pos <= data@.len(),
    ensures
        r.0@ == Seq::new(n as nat, |k: int| byte_or_zero(data@, pos + k)),
        r.1 == advance(data@, pos as int, n as int),
{
    let mut out: Vec<u8> = Vec::new();
    let mut i: usize = pos;
    let mut j: usize = 0;
    while j < n
        invariant
            j <= n,
            pos <= i <= data@.len(),
            i == advance(data@, pos as int, j as int),
            out@ == Seq::new(j as nat, |k: int| byte_or_zero(data@, pos + k)),
        decreases n - j,
    {
        if i < data.len() {
            out.push(data[i]);
            i = i + 1;
        } else {
            out.push(0);
        }
        j = j + 1;
        assert(out@ =~= Seq::new(j as nat, |k: int| byte_or_zero(data@, pos + k)));
    }
    (out, i)
}

/// Putting one record and then more in front of a result is putting both.
proof fn lemma_prepend_push(ts: Seq<TableView>, t: TableView, r: Result<Seq<TableView>, DecodeError>)
    ensures
        prepend(ts, prepend(seq![t], r)) == prepend(ts.push(t), r),
{
    if let Ok(s) = r {
        assert(ts + (seq![t] + s) =~= ts.push(t) + s);
    }
}

/// Decodes a structure table into its records, in the order in which they
/// stand. Decoding stops at the end of `data` or at a record of type
/// `END_OF_TABLE`. Where `data` ends inside a record, its formatted area is
/// filled up with zeros and its strings are those read so far. A record whose
/// length is below the size of a header fails the whole decoding.
pub fn tables(data: &[u8]) -> (r: Result<Vec<Table>, DecodeError>)
    ensures
        result_view(r) == decode(data@),
{
    let ghost d = data@;
    let mut out: Vec<Table> = Vec::new();
    let mut i: usize = 0;
    while i < data.len()
        invariant
            i <= d.len(),
            d == data@,
            decode(d) == prepend(tables_view(out@), decode_from(d, i as int)),
        decreases d.len() - i,
    {
        let (header, after_header) = read_header(data, i);
        if header.kind == END_OF_TABLE {
            assert(tables_view(out@) + Seq::empty() =~= tables_view(out@));
            return Ok(out);
        }
        if header.len < 4 {
            return Err(DecodeError::BadLength { offset: i, len: header.len });
        }
        let (body, after_data) = read_data(data, after_header, (header.len - 4) as usize);
        let (strings, next) = read_strings(data, after_data);
        let table = Table { header, data: body, strings };
        let ghost old_view = tables_view(out@);
        proof {
            lemma_strings_from_end(d, after_data as int, true);
            assert(table@ == record_at(d, i as int));
            lemma_prepend_push(old_view, table@, decode_from(d, next as int));
        }
        out.push(table);
        proof {
            assert(tables_view(out@) =~= old_view.push(table@));
        }
        i = next;
    }
    assert(tables_view(out@) + Seq::empty() =~= tables_view(out@));
    Ok(out)
}

/// Decoding depends on the bytes alone and leaves them as they are: two
/// decodings of the same buffer give the same records, with the same
/// headers, formatted areas and strings, or the same error.
pub proof fn lemma_decode_repeatable(
    d: Seq<u8>,
    r1: Result<Vec<Table>, DecodeError>,
    r2: Result<Vec<Table>, DecodeError>,
)
    requires
        result_view(r1) == decode(d),
        result_view(r2) == decode(d),
    ensures
        result_view(r1) == result_view(r2),
{
}

} // verus!
