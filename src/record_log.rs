use vstd::prelude::*;
use vstd::string::{StringExecFns, StringSliceAdditionalSpecFns};
use vstd::utf8::{encode_utf8, is_ascii_chars, is_ascii_chars_encode_utf8};
use vstd::arithmetic::div_mod::{
    lemma_fundamental_div_mod, lemma_fundamental_div_mod_converse, lemma_mod_pos_bound,
};

verus! {

/// One submitted sentence.
pub struct Record {
    pub language: String,
    pub sentence: String,
    pub timestamp: String,
}

#[verifier::external_type_specification]
#[verifier::external_body]
pub struct ExCsvError(csv::Error);

/// The bytes that a `csv::Writer` writes for one record with these fields.
pub uninterp spec fn csv_line(fields: Seq<Seq<char>>) -> Seq<u8>;

/// The number of records that a `csv::Reader` with a header row reads from these bytes,
/// or `None` where one of them fails to parse.
pub uninterp spec fn csv_record_count(bytes: Seq<u8>) -> Option<nat>;

/// The rotation threshold where the settings give none.
pub const DEFAULT_ROWS_PER_FILE: u64 = 100;

/// Relies on `csv::Writer::write_record` into a `Vec<u8>`: the bytes of one record. A fresh
/// writer takes its first record whatever its field count, and flushing into a `Vec` does
/// not fail.
#[verifier::external_body]
fn write_csv_line(fields: &Vec<String>) -> (r: Result<Vec<u8>, csv::Error>)
    ensures
        r is Ok,
        r->Ok_0@ == csv_line(fields@.map_values(|f: String| f@)),
{
    let mut w = csv::Writer::from_writer(Vec::new());
    w.write_record(fields)?;
    w.into_inner().map_err(|e| csv::Error::from(e.into_error()))
}

/// Relies on `csv::Reader::records`: how many records follow the header row.
#[verifier::external_body]
fn read_csv_record_count(bytes: &[u8]) -> (r: Option<usize>)
    ensures
        match r {
            Some(n) => csv_record_count(bytes@) == Some(n as nat),
            None => csv_record_count(bytes@) is None || csv_record_count(bytes@)->0 > usize::MAX,
        },
{
    let mut rdr = csv::Reader::from_reader(bytes);
    rdr.records().collect::<Result<Vec<_>, _>>().ok().map(|v| v.len())
}

/// The header row's fields.
pub open spec fn header_fields() -> Seq<Seq<char>> {
    seq!["language"@, "sentence"@, "timestamp"@]
}

/// The fields of a record, in column order.
pub open spec fn record_fields(r: Record) -> Seq<Seq<char>> {
    seq![r.language@, r.sentence@, r.timestamp@]
}

/// What one submission appends to the staging file.
pub open spec fn appended_bytes(r: Record, with_header: bool) -> Seq<u8> {
    if with_header {
        csv_line(header_fields()) + csv_line(record_fields(r))
    } else {
        csv_line(record_fields(r))
    }
}

impl Record {
    /// A record of `sentence` in `language`, taken at `timestamp`.
    pub fn new(language: &str, sentence: &str, timestamp: &str) -> (r: Record)
        ensures
            r.language@ == language@,
            r.sentence@ == sentence@,
            r.timestamp@ == timestamp@,
    {
        Record {
            language: language.to_owned(),
            sentence: sentence.to_owned(),
            timestamp: timestamp.to_owned(),
        }
    }
}

fn fields_vec(a: &str, b: &str, c: &str) -> (r: Vec<String>)
    ensures
        r@.map_values(|f: String| f@) == seq![a@, b@, c@],
{
    let mut r: Vec<String> = Vec::new();
    r.push(a.to_owned());
    r.push(b.to_owned());
    r.push(c.to_owned());
    assert(r@.map_values(|f: String| f@) =~= seq![a@, b@, c@]);
    r
}

/// The bytes that a submission appends to the staging file: the record's row,
/// after the header row where the file holds no row yet.
pub fn row_bytes(record: &Record, with_header: bool) -> (r: Result<Vec<u8>, String>)
    ensures
        r is Ok,
        r->Ok_0@ == appended_bytes(*record, with_header),
{
    let row = fields_vec(record.language.as_str(), record.sentence.as_str(), record.timestamp.as_str());
    let line = match write_csv_line(&row) {
        Ok(b) => b,
        Err(e) => {
            return Err(e.to_string());
        },
    };
    if with_header {
        let head = fields_vec("language", "sentence", "timestamp");
        let mut bytes = match write_csv_line(&head) {
            Ok(b) => b,
            Err(e) => {
                return Err(e.to_string());
            },
        };
        let mut line = line;
        bytes.append(&mut line);
        Ok(bytes)
    } else {
        Ok(line)
    }
}

/// The number of data rows in the staging file's bytes; a file that does not parse
/// counts as empty.
pub fn count_csv_rows(bytes: &[u8]) -> (r: usize)
    ensures
        match csv_record_count(bytes@) {
            Some(n) => n <= usize::MAX ==> r == n,
            None => r == 0,
        },
{
    match read_csv_record_count(bytes) {
        Some(n) => n,
        None => 0,
    }
}

/// Whether the staging file is moved into the archive once a submission has been
/// written to it, `rows_before` being its row count before that write.
pub fn should_rotate(rows_before: usize, threshold: u64) -> (r: bool)
    ensures
        r == (rows_before + 1 >= threshold),
{
    rows_before as u64 >= threshold || rows_before as u64 + 1 >= threshold
}

/// The position of the dot that starts a file name's extension, if the name has one.
pub open spec fn extension_dot(b: Seq<u8>, end: int) -> int
    decreases end,
{
    if end <= 0 {
        -1
    } else if b[end - 1] == 46u8 {
        end - 1
    } else {
        extension_dot(b, end - 1)
    }
}

/// A file name without its extension: up to the last dot, where that dot is not the first byte.
pub open spec fn stem_of(b: Seq<u8>) -> Seq<u8> {
    let d = extension_dot(b, b.len() as int);
    if d > 0 {
        b.subrange(0, d)
    } else {
        b
    }
}

pub open spec fn is_digit(c: u8) -> bool {
    48u8 <= c <= 57u8
}

/// The number that a run of decimal digits spells.
pub open spec fn digits_value(s: Seq<u8>) -> nat
    decreases s.len(),
{
    if s.len() == 0 {
        0
    } else {
        digits_value(s.drop_last()) * 10 + (s.last() - 48) as nat
    }
}

/// A stem without the one plus sign that may lead it.
pub open spec fn digits_part(s: Seq<u8>) -> Seq<u8> {
    if s.len() > 0 && s[0] == 43u8 {
        s.subrange(1, s.len() as int)
    } else {
        s
    }
}

/// The archive index that a file name carries: its stem read as a decimal number.
pub open spec fn index_of_name(b: Seq<u8>) -> Option<nat> {
    let s = digits_part(stem_of(b));
    if s.len() > 0 && (forall|i: int| 0 <= i < s.len() ==> is_digit(#[trigger] s[i]))
        && digits_value(s) <= u64::MAX {
        Some(digits_value(s))
    } else {
        None
    }
}

/// The archive index of a file name, or `None` for a name whose stem is no number.
pub fn archive_index(name: &str) -> (r: Option<u64>)
    ensures
        name_index(name@) == match r {
            Some(n) => Some(n as nat),
            None => None::<nat>,
        },
{
    let b = name.as_bytes();
    let ghost bs = b@;
    assert(bs == name.spec_bytes());
    let mut end: usize = b.len();
    while end > 0 && b[end - 1] != 46u8
        invariant
            0 <= end <= b.len(),
            extension_dot(bs, b.len() as int) == extension_dot(bs, end as int),
            b@ == bs,
            bs == name.spec_bytes(),
        decreases end,
    {
        end = end - 1;
    }
    let stop: usize = if end > 1 { end - 1 } else { b.len() };
    assert(stop as int == stem_of(bs).len()) by {
        if end > 0 {
            assert(extension_dot(bs, end as int) == end - 1);
        } else {
            assert(extension_dot(bs, 0) == -1);
        }
    }
    assert(forall|i: int| 0 <= i < stop ==> stem_of(bs)[i] == bs[i]);
    if stop == 0 {
        return None;
    }
    let start: usize = if b[0] == 43u8 { 1 } else { 0 };
    let ghost ds = digits_part(stem_of(bs));
    assert(ds.len() == stop - start);
    assert(forall|j: int| 0 <= j < stop - start ==> ds[j] == bs[start + j]);
    if start == stop {
        return None;
    }
    let mut v: u64 = 0;
    let mut i: usize = start;
    while i < stop
        invariant
            start <= i <= stop <= b.len(),
            b@ == bs,
            bs == name.spec_bytes(),
            ds == digits_part(stem_of(bs)),
            ds.len() == stop - start,
            forall|j: int| 0 <= j < stop - start ==> ds[j] == bs[start + j],
            forall|j: int| 0 <= j < i - start ==> is_digit(#[trigger] ds[j]),
            v as nat == digits_value(ds.subrange(0, i - start)),
        decreases stop - i,
    {
        let c = b[i];
        let ghost k: int = i - start;
        assert(ds.subrange(0, k + 1).drop_last() =~= ds.subrange(0, k));
        if c < 48u8 || c > 57u8 {
            assert(!is_digit(ds[k]));
            assert(!(forall|j: int| 0 <= j < ds.len() ==> is_digit(#[trigger] ds[j])));
            assert(index_of_name(bs) is None);
            return None;
        }
        let d = (c - 48u8) as u64;
        if v > (u64::MAX - d) / 10 {
            proof {
                assert(v as int * 10 + d as int > u64::MAX) by (nonlinear_arith)
                    requires
                        v > (u64::MAX - d) / 10,
                        d <= 9,
                ;
                assert(digits_value(ds.subrange(0, k + 1)) == v as int * 10 + d as int);
                if forall|j: int| 0 <= j < ds.len() ==> is_digit(#[trigger] ds[j]) {
                    lemma_digits_grow(ds, k + 1, ds.len() as int);
                    assert(ds.subrange(0, ds.len() as int) =~= ds);
                }
                assert(index_of_name(bs) is None);
            }
            return None;
        }
        v = v * 10 + d;
        i = i + 1;
    }
    assert(ds.subrange(0, stop - start) =~= ds);
    Some(v)
}

/// The archive index that a file name carries, over the name's characters.
pub open spec fn name_index(name: Seq<char>) -> Option<nat> {
    index_of_name(encode_utf8(name))
}

/// Whether every name carries an archive index.
pub open spec fn all_numbered(names: Seq<String>) -> bool {
    forall|i: int| 0 <= i < names.len() ==> (#[trigger] name_index(names[i]@)) is Some
}

/// The largest archive index among the names; 0 where there is none.
pub open spec fn max_index(names: Seq<String>) -> nat
    decreases names.len(),
{
    if names.len() == 0 {
        0
    } else {
        let m = max_index(names.drop_last());
        match name_index(names.last()@) {
            Some(n) => if n > m { n } else { m },
            None => m,
        }
    }
}

/// Why no archive index can be given.
pub enum ArchiveError {
    /// A file in the archive directory has a name that carries no index.
    Misnamed(String),
    /// The largest index in use is the largest one there is.
    Exhausted,
}

/// The index under which the staging file joins the archive: one more than the
/// largest index among `names`, the archive directory's file names, and 1 where it
/// is empty. A name that carries no index is an error, as is an archive whose largest
/// index cannot grow.
pub fn next_archive_index(names: &Vec<String>) -> (r: Result<u64, ArchiveError>)
    ensures
        match r {
            Ok(n) => all_numbered(names@) && n == max_index(names@) + 1,
            Err(ArchiveError::Misnamed(s)) => exists|i: int|
                0 <= i < names@.len() && names@[i]@ == s@ && name_index(names@[i]@) is None,
            Err(ArchiveError::Exhausted) => all_numbered(names@) && max_index(names@) == u64::MAX,
        },
{
    let mut m: u64 = 0;
    let mut i: usize = 0;
    while i < names.len()
        invariant
            0 <= i <= names.len(),
            all_numbered(names@.subrange(0, i as int)),
            m == max_index(names@.subrange(0, i as int)),
        decreases names.len() - i,
    {
        let ghost p = names@.subrange(0, i + 1);
        assert(p.drop_last() =~= names@.subrange(0, i as int));
        match archive_index(names[i].as_str()) {
            Some(n) => {
                if n > m {
                    m = n;
                }
            },
            None => {
                return Err(ArchiveError::Misnamed(names[i].clone()));
            },
        }
        proof {
            assert forall|j: int| 0 <= j < p.len() implies (#[trigger] name_index(p[j]@)) is Some by {
                if j < i {
                    assert(p[j] == names@.subrange(0, i as int)[j]);
                }
            }
        }
        i = i + 1;
    }
    assert(names@.subrange(0, i as int) =~= names@);
    if m == u64::MAX {
        return Err(ArchiveError::Exhausted);
    }
    Ok(m + 1)
}

/// The decimal digit character for `d`, below ten.
pub open spec fn digit_char(d: nat) -> char {
    seq!['0', '1', '2', '3', '4', '5', '6', '7', '8', '9'][d as int]
}

/// The decimal writing of a number, without leading zeros.
pub open spec fn decimal(n: nat) -> Seq<char>
    decreases n,
{
    if n < 10 {
        seq![digit_char(n)]
    } else {
        decimal(n / 10).push(digit_char(n % 10))
    }
}

/// The one-character string of the decimal digit `d`.
fn digit_str(d: u64) -> (r: &'static str)
    requires
        d < 10,
    ensures
        r@ == seq![digit_char(d as nat)],
{
    proof {
        reveal_strlit("0");
        reveal_strlit("1");
        reveal_strlit("2");
        reveal_strlit("3");
        reveal_strlit("4");
        reveal_strlit("5");
        reveal_strlit("6");
        reveal_strlit("7");
        reveal_strlit("8");
        reveal_strlit("9");
    }
    if d == 0 {
        "0"
    } else if d == 1 {
        "1"
    } else if d == 2 {
        "2"
    } else if d == 3 {
        "3"
    } else if d == 4 {
        "4"
    } else if d == 5 {
        "5"
    } else if d == 6 {
        "6"
    } else if d == 7 {
        "7"
    } else if d == 8 {
        "8"
    } else {
        "9"
    }
}

/// The decimal writing of the number.
fn decimal_text(n: u64) -> (r: String)
    ensures
        r@ == decimal(n as nat),
    decreases n,
{
    if n < 10 {
        digit_str(n).to_owned()
    } else {
        let r = decimal_text(n / 10).concat(digit_str(n % 10));
        assert(r@ =~= decimal((n / 10) as nat).push(digit_char((n % 10) as nat)));
        r
    }
}

/// The extension of every record file.
pub open spec fn csv_extension() -> Seq<char> {
    ".csv"@
}

/// The file name of the archive file with this index.
pub fn archive_file_name(index: u64) -> (r: String)
    ensures
        r@ == decimal(index as nat) + csv_extension(),
{
    decimal_text(index).concat(".csv")
}

/// The name of the staging file, beside the archive directory.
pub fn staging_file_name() -> (r: &'static str)
    ensures
        r@ == "tmp.csv"@,
{
    "tmp.csv"
}

/// The name of the archive directory.
pub fn archive_dir_name() -> (r: &'static str)
    ensures
        r@ == "sentences"@,
{
    "sentences"
}

/// The record log after one more submission, as row counts: the staging file's rows
/// and the rows of each archive file, the archive file of index `i + 1` at position `i`.
/// The staging file joins the archive under the next index once the submission brings
/// it to the threshold, as `should_rotate` decides.
pub open spec fn after_submission(log: (nat, Seq<nat>), threshold: nat) -> (nat, Seq<nat>) {
    if log.0 + 1 >= threshold {
        (0, log.1.push(log.0 + 1))
    } else {
        (log.0 + 1, log.1)
    }
}

/// The record log after `n` submissions to an empty one.
pub open spec fn after_submissions(n: nat, threshold: nat) -> (nat, Seq<nat>)
    decreases n,
{
    if n == 0 {
        (0, Seq::empty())
    } else {
        after_submission(after_submissions((n - 1) as nat, threshold), threshold)
    }
}

/// One submission moves the log model as a submission planned with the same rotation
/// decision does: `rotate` as `plan_submission` and `should_rotate` state it.
pub proof fn lemma_planned_step(log: (nat, Seq<nat>), threshold: nat, rotate: bool)
    requires
        rotate == (log.0 + 1 >= threshold),
    ensures
        after_submission(log, threshold) == if rotate {
            (0nat, log.1.push(log.0 + 1))
        } else {
            ((log.0 + 1) as nat, log.1)
        },
        rotate ==> after_submission(log, threshold).1.len() == log.1.len() + 1,
{
}

/// `n` submissions to an empty log under threshold `t` leave `n / t` archive files of
/// `t` rows each, indexed from 1, and `n % t` rows in the staging file.
pub proof fn lemma_submissions_fill_archive(n: nat, t: nat)
    requires
        t >= 1,
    ensures
        after_submissions(n, t) == ((n % t) as nat, Seq::new(n / t, |i: int| t)),
    decreases n,
{
    if n == 0 {
        assert(Seq::<nat>::empty() =~= Seq::new(0, |i: int| t));
    } else {
        let m = (n - 1) as nat;
        lemma_submissions_fill_archive(m, t);
        let q = m / t;
        let r = m % t;
        lemma_fundamental_div_mod(m as int, t as int);
        lemma_mod_pos_bound(m as int, t as int);
        assert(m == q * t + r) by (nonlinear_arith)
            requires
                m == t * q + r,
        ;
        if r + 1 >= t {
            assert(n == (q + 1) * t + 0) by (nonlinear_arith)
                requires
                    m == q * t + r,
                    r + 1 == t,
                    n == m + 1,
            ;
            lemma_fundamental_div_mod_converse(n as int, t as int, (q + 1) as int, 0);
            assert(Seq::new(q, |i: int| t).push(r + 1) =~= Seq::new(n / t, |i: int| t));
        } else {
            assert(n == q * t + (r + 1)) by (nonlinear_arith)
                requires
                    m == q * t + r,
                    n == m + 1,
            ;
            lemma_fundamental_div_mod_converse(n as int, t as int, q as int, (r + 1) as int);
            assert(Seq::new(q, |i: int| t) =~= Seq::new(n / t, |i: int| t));
        }
    }
}

/// The bytes of a decimal writing.
pub open spec fn decimal_bytes(n: nat) -> Seq<u8>
    decreases n,
{
    if n < 10 {
        seq![(48 + n) as u8]
    } else {
        decimal_bytes(n / 10).push((48 + n % 10) as u8)
    }
}

proof fn lemma_digit_char(d: nat)
    requires
        d < 10,
    ensures
        '\0' <= digit_char(d) <= '\u{7f}',
        digit_char(d) as u8 == (48 + d) as u8,
{
    if d == 0 {
    } else if d == 1 {
    } else if d == 2 {
    } else if d == 3 {
    } else if d == 4 {
    } else if d == 5 {
    } else if d == 6 {
    } else if d == 7 {
    } else if d == 8 {
    } else {
        assert(d == 9);
    }
}

/// A decimal writing is ASCII; its bytes are its digits, and they spell the number.
proof fn lemma_decimal_bytes(n: nat)
    ensures
        is_ascii_chars(decimal(n)),
        encode_utf8(decimal(n)) == decimal_bytes(n),
        decimal_bytes(n).len() > 0,
        forall|i: int| 0 <= i < decimal_bytes(n).len() ==> is_digit(#[trigger] decimal_bytes(n)[i]),
        digits_value(decimal_bytes(n)) == n,
    decreases n,
{
    if n < 10 {
        lemma_digit_char(n);
        assert(digits_value(decimal_bytes(n)) == digits_value(Seq::<u8>::empty()) * 10 + n) by {
            assert(decimal_bytes(n).drop_last() =~= Seq::<u8>::empty());
        }
    } else {
        lemma_decimal_bytes(n / 10);
        lemma_digit_char(n % 10);
        assert(decimal_bytes(n).drop_last() =~= decimal_bytes(n / 10));
        assert(n == (n / 10) * 10 + n % 10);
    }
    let c = decimal(n);
    assert(is_ascii_chars(c)) by {
        if n >= 10 {
            assert forall|i: int| 0 <= i < c.len() implies '\0' <= #[trigger] c[i] <= '\u{7f}' by {
                if i < c.len() - 1 {
                    assert(c[i] == decimal(n / 10)[i]);
                }
            }
        }
    }
    is_ascii_chars_encode_utf8(c);
    assert(encode_utf8(c) =~= decimal_bytes(n)) by {
        if n >= 10 {
            is_ascii_chars_encode_utf8(decimal(n / 10));
            assert forall|i: int| 0 <= i < c.len() implies encode_utf8(c)[i] == decimal_bytes(n)[i] by {
                if i < c.len() - 1 {
                    assert(c[i] == decimal(n / 10)[i]);
                }
            }
        }
    }
}

/// The name of the archive file with index `n` carries the index `n`.
pub proof fn lemma_archive_name_index(n: nat)
    requires
        n <= u64::MAX,
    ensures
        name_index(decimal(n) + csv_extension()) == Some(n),
{
    lemma_decimal_bytes(n);
    reveal_strlit(".csv");
    let c = decimal(n) + csv_extension();
    let ext = csv_extension();
    assert(is_ascii_chars(ext));
    assert(is_ascii_chars(c)) by {
        assert forall|i: int| 0 <= i < c.len() implies '\0' <= #[trigger] c[i] <= '\u{7f}' by {
            if i < decimal(n).len() {
                assert(c[i] == decimal(n)[i]);
            } else {
                assert(c[i] == ext[i - decimal(n).len()]);
            }
        }
    }
    is_ascii_chars_encode_utf8(c);
    is_ascii_chars_encode_utf8(decimal(n));
    let d = decimal_bytes(n);
    assert(decimal(n).len() == d.len());
    assert(ext.len() == 4);
    let k = d.len() as int;
    let b = encode_utf8(c);
    assert(b.len() == k + 4);
    assert(b[k] == 46u8);
    assert(b[k + 1] != 46u8);
    assert(b[k + 2] != 46u8);
    assert(b[k + 3] != 46u8);
    assert(extension_dot(b, k + 4) == extension_dot(b, k + 3));
    assert(extension_dot(b, k + 3) == extension_dot(b, k + 2));
    assert(extension_dot(b, k + 2) == extension_dot(b, k + 1));
    assert(extension_dot(b, k + 1) == k);
    assert(stem_of(b) =~= d) by {
        assert forall|i: int| 0 <= i < k implies b[i] == d[i] by {
            assert(c[i] == decimal(n)[i]);
            is_ascii_chars_encode_utf8(decimal(n));
        }
    }
    assert(is_digit(d[0]));
    assert(digits_part(d) == d);
}

/// Archive files named with the indices 1 to `m` make `m` the largest index, so the
/// next archive file takes index `m + 1`.
pub proof fn lemma_archive_names_max(names: Seq<String>, m: nat)
    requires
        m <= u64::MAX,
        names.len() == m,
        forall|i: int| 0 <= i < m ==> (#[trigger] names[i])@ == decimal((i + 1) as nat) + csv_extension(),
    ensures
        all_numbered(names),
        max_index(names) == m,
    decreases m,
{
    if m > 0 {
        let p = names.drop_last();
        assert forall|i: int| 0 <= i < m - 1 implies (#[trigger] p[i])@ == decimal((i + 1) as nat)
            + csv_extension() by {
            assert(p[i] == names[i]);
        }
        lemma_archive_names_max(p, (m - 1) as nat);
        lemma_archive_name_index(m);
        assert(names.last() == names[m - 1]);
        assert forall|i: int| 0 <= i < names.len() implies (#[trigger] name_index(names[i]@)) is Some by {
            if i < m - 1 {
                assert(names[i] == p[i]);
            }
        }
    }
}

/// An archive that holds the file of index `k` alone is continued under index `k + 1`.
pub proof fn lemma_resume_after(name: String, k: nat)
    requires
        k <= u64::MAX,
        name@ == decimal(k) + csv_extension(),
    ensures
        all_numbered(seq![name]),
        max_index(seq![name]) == k,
{
    lemma_archive_name_index(k);
    let s = seq![name];
    assert(s.drop_last() =~= Seq::<String>::empty());
    assert(s.last() == name);
    assert(max_index(s.drop_last()) == 0);
    assert(name_index(s.last()@) == Some(k));
}

/// A longer run of digits spells a number at least as large.
proof fn lemma_digits_grow(s: Seq<u8>, i: int, n: int)
    requires
        0 <= i <= n <= s.len(),
        forall|j: int| 0 <= j < n ==> is_digit(#[trigger] s[j]),
    ensures
        digits_value(s.subrange(0, i)) <= digits_value(s.subrange(0, n)),
    decreases n - i,
{
    if i < n {
        lemma_digits_grow(s, i, n - 1);
        assert(s.subrange(0, n).drop_last() =~= s.subrange(0, n - 1));
    }
}

} // verus!
