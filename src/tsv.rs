use vstd::prelude::*;

use crate::errors::Error;
use crate::text::{lines, lines_spec, owned, split_on, split_spec, str_eq, views};

verus! {

/// A table read from tab-separated text: a header row naming the columns, then data rows
/// with one field per column.
pub struct Tsv {
    pub header_fields: Vec<String>,
    pub rows: Vec<Vec<String>>,
    pub path: String,
}

/// One data row of a table.
#[derive(Clone, Copy)]
pub struct TsvRow<'a> {
    pub index: usize,
    pub tsv: &'a Tsv,
}

/// Walks the data rows of a table in order.
pub struct TsvIterator<'a> {
    pub next_index: usize,
    pub tsv: &'a Tsv,
}

/// The header line of a text: its first line, or nothing.
pub open spec fn header_line(ls: Seq<Seq<char>>) -> Seq<char> {
    if ls.len() > 0 { ls[0] } else { Seq::empty() }
}

/// The text is a well-formed table: every line after the first has as many fields as the first.
pub open spec fn tsv_text_ok(value: Seq<char>) -> bool {
    let ls = lines_spec(value);
    forall|r: int| 1 <= r < ls.len() ==> #[trigger] split_spec(ls[r], '\t').len() == split_spec(header_line(ls), '\t').len()
}

/// Position of the last column with the given name, if any.
pub open spec fn column_of(header: Seq<Seq<char>>, field: Seq<char>) -> Option<int>
    decreases header.len(),
{
    if header.len() == 0 {
        None
    } else if header.last() == field {
        Some(header.len() - 1)
    } else {
        column_of(header.drop_last(), field)
    }
}

proof fn lemma_column_in_range(header: Seq<Seq<char>>, field: Seq<char>)
    ensures
        column_of(header, field) matches Some(k) ==> 0 <= k < header.len(),
    decreases header.len(),
{
    if header.len() > 0 {
        lemma_column_in_range(header.drop_last(), field);
    }
}

impl Tsv {
    pub open spec fn wf(&self) -> bool {
        forall|r: int| 0 <= r < self.rows.len() ==> (#[trigger] self.rows@[r]).len() == self.header_fields.len()
    }

    /// Reads a table from text; `path` names where the text came from, for messages.
    pub fn try_from_str(path: &str, value: &str) -> (r: Result<Tsv, Error>)
        ensures
            r is Ok <==> tsv_text_ok(value@),
            r matches Ok(t) ==> t.wf() && t.path@ == path@
                && views(t.header_fields@) == split_spec(header_line(lines_spec(value@)), '\t')
                && (t.rows.len() + 1 == lines_spec(value@).len() || (t.rows.len() == 0 && lines_spec(value@).len() == 0)),
            r matches Ok(t) ==> forall|i: int| 0 <= i < t.rows.len() ==> views(#[trigger] t.rows@[i]@) == split_spec(lines_spec(value@)[i + 1], '\t'),
    {
        let ls = lines(value);
        let header = if ls.len() > 0 { owned(ls[0].as_str()) } else { String::new() };
        let header_fields = split_on(header.as_str(), '\t');
        let mut rows: Vec<Vec<String>> = Vec::new();
        let mut i: usize = 1;
        while i < ls.len()
            invariant
                views(ls@) == lines_spec(value@),
                header@ == header_line(lines_spec(value@)),
                views(header_fields@) == split_spec(header@, '\t'),
                1 <= i,
                i <= ls.len() || ls.len() == 0,
                ls.len() == 0 ==> i == 1,
                rows.len() + 1 == i,
                forall|r: int| 1 <= r < i ==> #[trigger] split_spec(lines_spec(value@)[r], '\t').len() == header_fields.len(),
                forall|r: int| 0 <= r < rows.len() ==> (#[trigger] rows@[r]).len() == header_fields.len()
                    && views(rows@[r]@) == split_spec(lines_spec(value@)[r + 1], '\t'),
            decreases ls.len() - i,
        {
            let fields = split_on(ls[i].as_str(), '\t');
            assert(ls@[i as int]@ == lines_spec(value@)[i as int]);
            if fields.len() != header_fields.len() {
                proof {
                    assert(views(fields@).len() == fields@.len());
                    assert(views(header_fields@).len() == header_fields@.len());
                    assert(split_spec(lines_spec(value@)[i as int], '\t').len() != split_spec(header_line(lines_spec(value@)), '\t').len());
                }
                return Err(Error::TsvNumFieldsMismatch {
                    path: owned(path),
                    header_len: header_fields.len(),
                    row_len: fields.len(),
                    row: owned(ls[i].as_str()),
                });
            }
            rows.push(fields);
            i = i + 1;
        }
        Ok(Tsv { header_fields, rows, path: owned(path) })
    }

    pub fn num_rows(&self) -> (r: usize)
        ensures
            r == self.rows.len(),
    {
        self.rows.len()
    }

    /// The data row at a position.
    pub fn row(&self, index: usize) -> (r: TsvRow<'_>)
        requires
            index < self.rows.len(),
        ensures
            r.index == index,
            r.tsv == self,
    {
        TsvRow { index, tsv: self }
    }

    pub fn iter(&self) -> (r: TsvIterator<'_>)
        ensures
            r.next_index == 0,
            r.tsv == self,
    {
        TsvIterator { next_index: 0, tsv: self }
    }
}

impl<'a> TsvIterator<'a> {
    /// The next data row, if any is left.
    pub fn next_row(&mut self) -> (r: Option<TsvRow<'a>>)
        ensures
            final(self).tsv == old(self).tsv,
            old(self).next_index < old(self).tsv.rows.len() ==> r == Some(TsvRow { index: old(self).next_index, tsv: old(self).tsv })
                && final(self).next_index == old(self).next_index + 1,
            old(self).next_index >= old(self).tsv.rows.len() ==> r is None && final(self).next_index == old(self).next_index,
    {
        if self.next_index < self.tsv.rows.len() {
            let row = TsvRow { index: self.next_index, tsv: self.tsv };
            self.next_index = self.next_index + 1;
            Some(row)
        } else {
            None
        }
    }
}

impl<'a> TsvRow<'a> {
    pub open spec fn wf(&self) -> bool {
        self.tsv.wf() && self.index < self.tsv.rows.len()
    }

    /// The field of this row in the named column, if the table has that column.
    pub open spec fn field(&self, name: Seq<char>) -> Option<Seq<char>> {
        match column_of(views(self.tsv.header_fields@), name) {
            Some(k) => Some(self.tsv.rows@[self.index as int]@[k]@),
            None => None,
        }
    }

    /// The field in the named column; where two columns share the name, the last one.
    pub fn get(&self, field: &str) -> (r: Result<&'a str, Error>)
        requires
            self.wf(),
        ensures
            match r {
                Ok(s) => self.field(field@) == Some(s@),
                Err(e) => self.field(field@) is None && e is MissingTsvField,
            },
    {
        let tsv: &'a Tsv = self.tsv;
        let header = &tsv.header_fields;
        let mut k: usize = header.len();
        proof { lemma_column_in_range(views(header@), field@); }
        assert(views(header@).take(k as int) =~= views(header@));
        while k > 0
            invariant
                self.wf(),
                tsv == self.tsv,
                header == &tsv.header_fields,
                k <= header.len(),
                column_of(views(header@), field@) == column_of(views(header@).take(k as int), field@),
            decreases k,
        {
            assert(views(header@).take(k as int).drop_last() =~= views(header@).take(k - 1));
            if str_eq(header[k - 1].as_str(), field) {
                assert(tsv.rows@[self.index as int].len() == tsv.header_fields.len());
                let row = &tsv.rows[self.index];
                assert(row@.len() == header.len());
                return Ok(row[k - 1].as_str());
            }
            k = k - 1;
        }
        assert(views(header@).take(0) =~= Seq::<Seq<char>>::empty());
        Err(Error::MissingTsvField { tsv_path: owned(tsv.path.as_str()), field: owned(field) })
    }
}

} // verus!
