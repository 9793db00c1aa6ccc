//! The trusted boundary around the `csv` crate.
//!
//! The store's file format is comma-separated records, one per line, with
//! quoting as the `csv` crate writes it. Encoding a single record and
//! splitting a whole file back into records are delegated to that crate;
//! everything above this module (field syntax, the header, record shape)
//! is verified against the two names declared here.

use vstd::prelude::*;

verus! {

/// The one line the `csv` crate's writer produces for a record with the
/// given fields, terminator included.
pub uninterp spec fn csv_line_of(fields: Seq<Seq<char>>) -> Seq<char>;

/// The records the `csv` crate's reader finds in `text`, each a sequence
/// of fields; `None` when the reader reports an error.
pub uninterp spec fn csv_rows_of(text: Seq<char>) -> Option<Seq<Seq<Seq<char>>>>;

/// The concatenation of the encoded lines of `rows`.
pub open spec fn csv_concat(rows: Seq<Seq<Seq<char>>>) -> Seq<char>
    decreases rows.len(),
{
    if rows.len() == 0 {
        Seq::empty()
    } else {
        csv_line_of(rows[0]) + csv_concat(rows.drop_first())
    }
}

/// Every record of `rows` has exactly `k` fields.
pub open spec fn uniform_arity(rows: Seq<Seq<Seq<char>>>, k: int) -> bool {
    forall|i: int| 0 <= i < rows.len() ==> #[trigger] rows[i].len() == k
}

/// The written text of `rows` cannot begin with a byte-order mark: the
/// very first field, if it has any characters, does not start with
/// U+FEFF. The writer leaves such a field unquoted, while the reader
/// strips a byte-order mark from the start of its input, so only rows of
/// this shape are read back verbatim.
pub open spec fn bom_safe(rows: Seq<Seq<Seq<char>>>) -> bool {
    rows.len() > 0 && rows[0].len() > 0 && rows[0][0].len() > 0 ==> rows[0][0][0] != '\u{feff}'
}

/// Concatenation peels records off the back as well as off the front.
pub proof fn lemma_csv_concat_push(rows: Seq<Seq<Seq<char>>>, r: Seq<Seq<char>>)
    ensures
        csv_concat(rows.push(r)) == csv_concat(rows) + csv_line_of(r),
    decreases rows.len(),
{
    if rows.len() == 0 {
        assert(rows.push(r)[0] == r);
        assert(rows.push(r).drop_first() =~= Seq::<Seq<Seq<char>>>::empty());
        assert(csv_concat(rows.push(r)) == csv_line_of(r) + csv_concat(
            Seq::<Seq<Seq<char>>>::empty(),
        ));
        assert(csv_line_of(r) + Seq::<char>::empty() =~= csv_line_of(r));
        assert(Seq::<char>::empty() + csv_line_of(r) =~= csv_line_of(r));
    } else {
        assert(rows.push(r)[0] == rows[0]);
        assert(rows.push(r).drop_first() =~= rows.drop_first().push(r));
        lemma_csv_concat_push(rows.drop_first(), r);
        assert(csv_concat(rows.push(r)) == csv_line_of(rows[0]) + (csv_concat(rows.drop_first())
            + csv_line_of(r)));
        assert(csv_line_of(rows[0]) + (csv_concat(rows.drop_first()) + csv_line_of(r)) =~= (
        csv_line_of(rows[0]) + csv_concat(rows.drop_first())) + csv_line_of(r));
    }
}

/// Appends the encoded line of one record to `out`.
///
/// Relies on `csv::Writer::write_record` over an in-memory buffer: it
/// writes the fields comma-separated, quoted exactly where needed, and
/// terminates the record with a newline, so the appended text is nonempty.
#[verifier::external_body]
pub(crate) fn csv_push_line(out: &mut String, fields: &Vec<String>)
    ensures
        final(out)@ == old(out)@ + csv_line_of(fields.deep_view()),
        final(out)@.len() > old(out)@.len(),
{
    let mut w = csv::Writer::from_writer(Vec::new());
    w.write_record(fields).unwrap();
    let line = w.into_inner().unwrap();
    out.push_str(&String::from_utf8(line).unwrap());
}

/// Splits `text` into its records.
///
/// Relies on `csv::Reader` over an in-memory buffer, configured without a
/// header row: it yields the records of `text` in order, or an error for
/// text it cannot read (invalid UTF-8, uneven record lengths). The second
/// clause is the crate's round-trip guarantee: a file that is exactly a
/// concatenation of written records, all of one arity, is read back as
/// those records — except that the reader strips a byte-order mark from
/// the start of its input, so the claim excludes rows whose written text
/// would begin with one ([`bom_safe`]).
#[verifier::external_body]
pub(crate) fn csv_parse(text: &str) -> (r: Option<Vec<Vec<String>>>)
    ensures
        r.deep_view() == csv_rows_of(text@),
        forall|rows: Seq<Seq<Seq<char>>>, k: int|
            1 <= k && #[trigger] uniform_arity(rows, k) && bom_safe(rows) && text@ == csv_concat(
                rows,
            ) ==> r.deep_view() == Some(rows),
{
    let mut rdr = csv::ReaderBuilder::new().has_headers(false).from_reader(text.as_bytes());
    let mut rows: Vec<Vec<String>> = Vec::new();
    for rec in rdr.records() {
        match rec {
            Ok(r) => rows.push(r.iter().map(|f| f.to_string()).collect()),
            Err(_) => return None,
        }
    }
    Some(rows)
}

} // verus!
