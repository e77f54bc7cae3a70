use vstd::prelude::*;

use crate::document::{
    find_entry, find_section, is_separator_cell, label_of, lookup_entry, Document, Section, Value,
};
use crate::error::QueryError;
use crate::mapping::{override_of, Mapping};

verus! {

/// Row 1 exists and is made of separator cells only, so row 0 holds labels.
pub open spec fn has_usable_header(rows: Seq<Vec<Value>>) -> bool {
    &&& rows.len() >= 2
    &&& forall|j: int| 0 <= j < rows[1]@.len() ==> is_separator_cell(#[trigger] rows[1]@[j])
}

/// The rows that carry data: all but the header and separator, if there are
/// such.
pub open spec fn data_rows(rows: Seq<Vec<Value>>) -> Seq<Vec<Value>> {
    if has_usable_header(rows) {
        rows.subrange(2, rows.len() as int)
    } else {
        rows
    }
}

/// The first position in `header` whose label is `field`.
pub open spec fn header_position(header: Seq<Value>, field: Seq<char>) -> Option<int>
    decreases header.len(),
{
    if header.len() == 0 {
        None
    } else if label_of(header[0]) == field {
        Some(0)
    } else {
        match header_position(header.drop_first(), field) {
            Some(k) => Some(k + 1),
            None => None,
        }
    }
}

/// The column that holds `field` in the tabular section `section`: a
/// mapping override first, then the header labels if the header is usable.
pub open spec fn column_of(
    mapping: Mapping,
    section: Seq<char>,
    rows: Seq<Vec<Value>>,
    field: Seq<char>,
) -> Option<int> {
    match override_of(mapping, section, field) {
        Some(c) => Some(c as int),
        None => if has_usable_header(rows) {
            header_position(rows[0]@, field)
        } else {
            None
        },
    }
}

/// What the tabular section `section` gives for `field` in data row `r`.
pub open spec fn tabular_cell(
    mapping: Mapping,
    section: Seq<char>,
    rows: Seq<Vec<Value>>,
    field: Seq<char>,
    r: int,
) -> Option<Value> {
    let d = data_rows(rows);
    match column_of(mapping, section, rows, field) {
        Some(c) => if 0 <= r < d.len() && 0 <= c < d[r]@.len() {
            Some(d[r]@[c])
        } else {
            None
        },
        None => None,
    }
}

spec fn shift(o: Option<int>, k: int) -> Option<int> {
    match o {
        Some(p) => Some(p + k),
        None => None,
    }
}

/// Whether every cell of `row` is a separator cell.
fn is_row_header_separator(row: &Vec<Value>) -> (r: bool)
    ensures
        r == forall|j: int| 0 <= j < row@.len() ==> is_separator_cell(#[trigger] row@[j]),
{
    let mut i: usize = 0;
    while i < row.len()
        invariant
            i <= row@.len(),
            forall|j: int| 0 <= j < i ==> is_separator_cell(#[trigger] row@[j]),
        decreases row.len() - i,
    {
        if !row[i].is_separator() {
            return false;
        }
        i = i + 1;
    }
    true
}

/// The header row of a tabular section, if it has a usable one.
fn section_header(rows: &Vec<Vec<Value>>) -> (r: Option<&Vec<Value>>)
    ensures
        has_usable_header(rows@) ==> r == Some(&rows@[0]),
        !has_usable_header(rows@) ==> r is None,
{
    if rows.len() < 2 {
        return None;
    }
    if !is_row_header_separator(&rows[1]) {
        return None;
    }
    Some(&rows[0])
}

/// The first position in `header` whose label is `field`.
fn position_in_header(header: &Vec<Value>, field: &String) -> (r: Option<usize>)
    ensures
        int_option(r) == header_position(header@, field@),
{
    let mut i: usize = 0;
    assert(header@.subrange(0, header@.len() as int) =~= header@);
    while i < header.len()
        invariant
            i <= header@.len(),
            header_position(header@, field@) == shift(
                header_position(header@.subrange(i as int, header@.len() as int), field@),
                i as int,
            ),
        decreases header.len() - i,
    {
        let ghost rest = header@.subrange(i as int, header@.len() as int);
        assert(rest.drop_first() =~= header@.subrange(i + 1, header@.len() as int));
        assert(rest[0] == header@[i as int]);
        if *header[i].label() == *field {
            return Some(i);
        }
        i = i + 1;
    }
    None
}

/// The header position of each field, in field order.
fn extract_field_idxs_from_rows(field_names: &Vec<String>, header: &Vec<Value>) -> (r: Vec<
    Option<usize>,
>)
    ensures
        r@.len() == field_names@.len(),
        forall|p: int|
            0 <= p < r@.len() ==> int_option(#[trigger] r@[p]) == header_position(header@, field_names@[p]@),
{
    let mut r: Vec<Option<usize>> = Vec::new();
    let mut p: usize = 0;
    while p < field_names.len()
        invariant
            p <= field_names@.len(),
            r@.len() == p,
            forall|q: int|
                0 <= q < p ==> int_option(#[trigger] r@[q]) == header_position(header@, field_names@[q]@),
        decreases field_names.len() - p,
    {
        r.push(position_in_header(header, &field_names[p]));
        p = p + 1;
    }
    r
}

spec fn int_option(o: Option<usize>) -> Option<int> {
    match o {
        Some(c) => Some(c as int),
        None => None,
    }
}

/// The column of each field in a tabular section, in field order.
fn resolve_columns(
    field_names: &Vec<String>,
    section_name: &String,
    rows: &Vec<Vec<Value>>,
    mapping: &Mapping,
) -> (r: Vec<Option<usize>>)
    ensures
        r@.len() == field_names@.len(),
        forall|p: int|
            0 <= p < r@.len() ==> int_option(#[trigger] r@[p]) == column_of(
                *mapping,
                section_name@,
                rows@,
                field_names@[p]@,
            ),
{
    let overrides = mapping.get(section_name.as_str());
    let header = section_header(rows);
    let by_label: Vec<Option<usize>> = match header {
        Some(h) => extract_field_idxs_from_rows(field_names, h),
        None => Vec::new(),
    };
    let mut r: Vec<Option<usize>> = Vec::new();
    let mut p: usize = 0;
    while p < field_names.len()
        invariant
            p <= field_names@.len(),
            r@.len() == p,
            header is Some ==> by_label@.len() == field_names@.len(),
            has_usable_header(rows@) ==> header == Some(&rows@[0]),
            !has_usable_header(rows@) ==> header is None,
            header is Some ==> forall|q: int|
                0 <= q < by_label@.len() ==> int_option(#[trigger] by_label@[q]) == header_position(rows@[0]@, field_names@[q]@),
            match find_entry(mapping.section_mappings@, section_name@) {
                Some(m) => overrides == Some(&m),
                None => overrides is None,
            },
            forall|q: int|
                0 <= q < p ==> int_option(#[trigger] r@[q]) == column_of(
                    *mapping,
                    section_name@,
                    rows@,
                    field_names@[q]@,
                ),
        decreases field_names.len() - p,
    {
        let pinned: Option<usize> = match overrides {
            Some(m) => m.get(field_names[p].as_str()),
            None => None,
        };
        let c: Option<usize> = match pinned {
            Some(c) => Some(c),
            None => match header {
                Some(_) => by_label[p],
                None => None,
            },
        };
        proof {
            if header is Some {
                if let Some(k) = header_position(rows@[0]@, field_names@[p as int]@) {
                    header_position_in_range(rows@[0]@, field_names@[p as int]@);
                }
            }
            assert(pinned == override_of(*mapping, section_name@, field_names@[p as int]@));
            assert(int_option(c) == column_of(
                *mapping,
                section_name@,
                rows@,
                field_names@[p as int]@,
            ));
        }
        r.push(c);
        p = p + 1;
    }
    r
}

proof fn header_position_in_range(header: Seq<Value>, field: Seq<char>)
    ensures
        match header_position(header, field) {
            Some(k) => 0 <= k < header.len(),
            None => true,
        },
    decreases header.len(),
{
    if header.len() > 0 {
        header_position_in_range(header.drop_first(), field);
    }
}

/// One output row while it is being filled: a slot per projected field.
pub struct RowBuilder {
    values: Vec<Option<Value>>,
}

impl View for RowBuilder {
    type V = Seq<Option<Value>>;

    closed spec fn view(&self) -> Seq<Option<Value>> {
        self.values@
    }
}

/// The values of a row whose slots are all filled.
pub open spec fn filled(slots: Seq<Option<Value>>) -> Seq<Value> {
    Seq::new(slots.len(), |p: int| slots[p]->Some_0)
}

/// Whether every slot is filled.
pub open spec fn all_filled(slots: Seq<Option<Value>>) -> bool {
    forall|p: int| 0 <= p < slots.len() ==> (#[trigger] slots[p]) is Some
}

impl RowBuilder {
    /// A row of `len` empty slots.
    pub fn new(len: usize) -> (r: RowBuilder)
        ensures
            r@ == Seq::new(len as nat, |p: int| None::<Value>),
    {
        let mut values: Vec<Option<Value>> = Vec::new();
        let mut p: usize = 0;
        while p < len
            invariant
                p <= len,
                values@ == Seq::new(p as nat, |q: int| None::<Value>),
            decreases len - p,
        {
            values.push(None);
            p = p + 1;
            assert(values@ =~= Seq::new(p as nat, |q: int| None::<Value>));
        }
        RowBuilder { values }
    }

    /// Fills slot `pos` with `value`, replacing what it held.
    pub fn put(&mut self, pos: usize, value: Value)
        requires
            pos < old(self)@.len(),
        ensures
            final(self)@ == old(self)@.update(pos as int, Some(value)),
    {
        self.values.set(pos, Some(value));
    }

    /// The row's values, if every slot is filled.
    pub fn finish(self) -> (r: Option<Vec<Value>>)
        ensures
            all_filled(self@) ==> r is Some && r->Some_0@ == filled(self@),
            !all_filled(self@) ==> r is None,
    {
        self.filled_values()
    }

    fn filled_values(&self) -> (r: Option<Vec<Value>>)
        ensures
            all_filled(self@) ==> r is Some && r->Some_0@ == filled(self@),
            !all_filled(self@) ==> r is None,
    {
        let values = &self.values;
        let mut out: Vec<Value> = Vec::new();
        let mut p: usize = 0;
        while p < values.len()
            invariant
                p <= values@.len(),
                values@ == self@,
                out@ == filled(values@.subrange(0, p as int)),
                forall|q: int| 0 <= q < p ==> (#[trigger] values@[q]) is Some,
            decreases values.len() - p,
        {
            match &values[p] {
                Some(v) => out.push(v.copy()),
                None => return None,
            }
            p = p + 1;
            assert(out@ =~= filled(values@.subrange(0, p as int)));
        }
        assert(values@.subrange(0, values@.len() as int) =~= values@);
        Some(out)
    }
}

/// What a table row holds at slot `p`: nothing where the row does not exist.
pub open spec fn slot_at(t: Seq<Seq<Option<Value>>>, r: int, p: int) -> Option<Value> {
    if 0 <= r < t.len() {
        t[r][p]
    } else {
        None
    }
}

/// `first` where it holds a value, else `second`.
pub open spec fn prefer(first: Option<Value>, second: Option<Value>) -> Option<Value> {
    match first {
        Some(v) => Some(v),
        None => second,
    }
}

/// The table with each filled dictionary slot written into every row.
pub open spec fn broadcast(globals: Seq<Option<Value>>, t: Seq<Seq<Option<Value>>>) -> Seq<
    Seq<Option<Value>>,
> {
    Seq::new(t.len(), |r: int| Seq::new(globals.len(), |p: int| prefer(globals[p], t[r][p])))
}

/// The first row with an empty slot.
pub open spec fn first_incomplete(t: Seq<Seq<Option<Value>>>) -> Option<int> {
    if exists|i: int| 0 <= i < t.len() && !all_filled(#[trigger] t[i]) {
        Some(
            choose|i: int|
                0 <= i < t.len() && !all_filled(#[trigger] t[i]) && forall|j: int|
                    0 <= j < i ==> all_filled(#[trigger] t[j]),
        )
    } else {
        None
    }
}

/// The rows of a table whose slots are all filled, or the error for its
/// first incomplete row.
pub open spec fn completed(t: Seq<Seq<Option<Value>>>) -> Result<Seq<Seq<Value>>, QueryError> {
    match first_incomplete(t) {
        Some(i) => Err(QueryError::Assembly { row: i as usize }),
        None => Ok(Seq::new(t.len(), |i: int| filled(t[i]))),
    }
}

/// The rows of a result as sequences.
pub open spec fn rows_view(r: Result<Vec<Vec<Value>>, QueryError>) -> Result<
    Seq<Seq<Value>>,
    QueryError,
> {
    match r {
        Ok(rows) => Ok(rows@.map_values(|row: Vec<Value>| row@)),
        Err(e) => Err(e),
    }
}

/// What `row` holds at column `col`.
pub open spec fn row_cell(row: Seq<Value>, col: Option<usize>) -> Option<Value> {
    match col {
        Some(c) => if c < row.len() {
            Some(row[c as int])
        } else {
            None
        },
        None => None,
    }
}

/// Fills each slot `p` of `builder` whose column `cols[p]` exists in `row`.
fn fill_row(builder: &mut RowBuilder, row: &Vec<Value>, cols: &Vec<Option<usize>>)
    requires
        old(builder)@.len() == cols@.len(),
    ensures
        final(builder)@.len() == cols@.len(),
        forall|p: int|
            0 <= p < cols@.len() ==> #[trigger] final(builder)@[p] == prefer(
                row_cell(row@, cols@[p]),
                old(builder)@[p],
            ),
{
    let ghost before = builder@;
    let n = cols.len();
    let mut p: usize = 0;
    while p < n
        invariant
            p <= n,
            n == cols@.len(),
            builder@.len() == n,
            before == old(builder)@,
            forall|q: int|
                0 <= q < n ==> #[trigger] builder@[q] == if q < p {
                    prefer(row_cell(row@, cols@[q]), before[q])
                } else {
                    before[q]
                },
        decreases n - p,
    {
        match cols[p] {
            Some(c) => {
                if c < row.len() {
                    builder.put(p, row[c].copy());
                }
            },
            None => {},
        }
        p = p + 1;
    }
}

/// Accumulates what the sections of a query contribute to its result.
pub struct ResultBuilder<'n> {
    field_names: &'n Vec<String>,
    rows: Vec<RowBuilder>,
    values_from_dicts: Vec<Option<Value>>,
}

impl<'n> ResultBuilder<'n> {
    /// The projected field names.
    pub closed spec fn fields(&self) -> Seq<String> {
        self.field_names@
    }

    /// The partial row table: one sequence of slots per row.
    pub closed spec fn table(&self) -> Seq<Seq<Option<Value>>> {
        self.rows@.map_values(|b: RowBuilder| b@)
    }

    /// The row-independent slots, one per field.
    pub closed spec fn globals(&self) -> Seq<Option<Value>> {
        self.values_from_dicts@
    }

    /// Every slot sequence has one slot per field.
    pub closed spec fn wf(&self) -> bool {
        &&& self.values_from_dicts@.len() == self.field_names@.len()
        &&& forall|r: int|
            0 <= r < self.rows@.len() ==> (#[trigger] self.rows@[r])@.len()
                == self.field_names@.len()
    }

    /// A builder with no rows and empty row-independent slots.
    pub fn new(field_names: &'n Vec<String>) -> (r: Self)
        ensures
            r.wf(),
            r.fields() == field_names@,
            r.table().len() == 0,
            r.globals() == Seq::new(field_names@.len(), |p: int| None::<Value>),
    {
        let b = RowBuilder::new(field_names.len());
        let r = ResultBuilder { field_names, rows: Vec::new(), values_from_dicts: b.values };
        r
    }

    /// Takes each projected field that `dictionary` holds into its
    /// row-independent slot.
    pub fn extract_fields_from_dict_section(&mut self, dictionary: &Vec<(String, Value)>)
        requires
            old(self).wf(),
        ensures
            final(self).wf(),
            final(self).fields() == old(self).fields(),
            final(self).table() == old(self).table(),
            final(self).globals() == Seq::new(
                old(self).fields().len(),
                |p: int|
                    prefer(
                        find_entry(dictionary@, old(self).fields()[p]@),
                        old(self).globals()[p],
                    ),
            ),
    {
        let ghost g0 = self.values_from_dicts@;
        let n = self.field_names.len();
        let mut p: usize = 0;
        while p < n
            invariant
                p <= n,
                n == self.field_names@.len(),
                self.field_names == old(self).field_names,
                self.rows == old(self).rows,
                g0 == old(self).values_from_dicts@,
                self.values_from_dicts@.len() == n,
                forall|q: int|
                    0 <= q < n ==> #[trigger] self.values_from_dicts@[q] == if q < p {
                        prefer(find_entry(dictionary@, self.field_names@[q]@), g0[q])
                    } else {
                        g0[q]
                    },
            decreases n - p,
        {
            match lookup_entry(dictionary, &self.field_names[p]) {
                Some(v) => {
                    self.values_from_dicts.set(p, Some(v.copy()));
                },
                None => {},
            }
            p = p + 1;
        }
        assert(self.values_from_dicts@ =~= Seq::new(
            n as nat,
            |q: int| prefer(find_entry(dictionary@, self.field_names@[q]@), g0[q]),
        ));
    }
    /// Writes what the tabular section `section_name` (rows `rows`) gives
    /// for each field into the partial row table, data row `r` into table
    /// row `r`, adding rows as needed.
    pub fn extract_fields_from_rows_section(
        &mut self,
        rows: &Vec<Vec<Value>>,
        section_name: &String,
        mapping: &Mapping,
    )
        requires
            old(self).wf(),
        ensures
            final(self).wf(),
            final(self).fields() == old(self).fields(),
            final(self).globals() == old(self).globals(),
            final(self).table().len() == if data_rows(rows@).len() > old(self).table().len() {
                data_rows(rows@).len()
            } else {
                old(self).table().len()
            },
            forall|r: int, p: int|
                0 <= r < final(self).table().len() && 0 <= p < old(self).fields().len()
                    ==> #[trigger] final(self).table()[r][p] == prefer(
                    tabular_cell(*mapping, section_name@, rows@, old(self).fields()[p]@, r),
                    slot_at(old(self).table(), r, p),
                ),
    {
        let ghost t0 = self.table();
        let n = self.field_names.len();
        let cols = resolve_columns(self.field_names, section_name, rows, mapping);
        let start: usize = match section_header(rows) {
            Some(_) => 2,
            None => 0,
        };
        let ghost d = data_rows(rows@);
        assert(d =~= rows@.subrange(start as int, rows@.len() as int));
        let mut i: usize = start;
        while i < rows.len()
            invariant
                start <= i <= rows@.len(),
                d == rows@.subrange(start as int, rows@.len() as int),
                d == data_rows(rows@),
                n == self.field_names@.len(),
                cols@.len() == n,
                forall|p: int|
                    0 <= p < n ==> int_option(#[trigger] cols@[p]) == column_of(
                        *mapping,
                        section_name@,
                        rows@,
                        self.field_names@[p]@,
                    ),
                self.field_names == old(self).field_names,
                self.values_from_dicts == old(self).values_from_dicts,
                t0 == old(self).table(),
                self.wf(),
                self.rows@.len() == if i - start > t0.len() {
                    (i - start) as nat
                } else {
                    t0.len()
                },
                forall|r: int, p: int|
                    0 <= r < self.rows@.len() && 0 <= p < n ==> #[trigger] self.rows@[r]@[p] == if r
                        < i - start {
                        prefer(
                            tabular_cell(*mapping, section_name@, rows@, self.field_names@[p]@, r),
                            slot_at(t0, r, p),
                        )
                    } else {
                        slot_at(t0, r, p)
                    },
            decreases rows.len() - i,
        {
            let idx: usize = i - start;
            if idx == self.rows.len() {
                self.rows.push(RowBuilder::new(n));
            }
            let row = &rows[i];
            proof {
                assert(d[idx as int] == rows@[i as int]);
                assert forall|q: int| 0 <= q < n implies #[trigger] tabular_cell(
                    *mapping,
                    section_name@,
                    rows@,
                    self.field_names@[q]@,
                    idx as int,
                ) == row_cell(row@, cols@[q]) by {
                    assert(int_option(cols@[q]) == column_of(
                        *mapping,
                        section_name@,
                        rows@,
                        self.field_names@[q]@,
                    ));
                }
            }
            fill_row(&mut self.rows[idx], row, &cols);
            i = i + 1;
        }
    }

    /// The result rows: each filled row-independent slot is written into
    /// every row, and then every row must have all its slots filled.
    pub fn finish(self) -> (res: Result<Vec<Vec<Value>>, QueryError>)
        requires
            self.wf(),
        ensures
            rows_view(res) == completed(broadcast(self.globals(), self.table())),
    {
        let ghost g = self.globals();
        let ghost t0 = self.table();
        let ghost m = broadcast(g, t0);
        let n = self.field_names.len();
        let mut rows = self.rows;
        let globals = self.values_from_dicts;
        let mut p: usize = 0;
        while p < n
            invariant
                p <= n,
                globals@ == g,
                g.len() == n,
                rows@.len() == t0.len(),
                forall|r: int| 0 <= r < rows@.len() ==> (#[trigger] rows@[r])@.len() == n,
                forall|r: int, q: int|
                    0 <= r < rows@.len() && 0 <= q < n ==> #[trigger] rows@[r]@[q] == if q < p {
                        prefer(g[q], t0[r][q])
                    } else {
                        t0[r][q]
                    },
            decreases n - p,
        {
            match &globals[p] {
                Some(v) => {
                    let mut r: usize = 0;
                    while r < rows.len()
                        invariant
                            r <= rows@.len(),
                            p < n,
                            globals@ == g,
                            g.len() == n,
                            g[p as int] == Some(*v),
                            rows@.len() == t0.len(),
                            forall|k: int| 0 <= k < rows@.len() ==> (#[trigger] rows@[k])@.len() == n,
                            forall|k: int, q: int|
                                0 <= k < rows@.len() && 0 <= q < n ==> #[trigger] rows@[k]@[q] == if q < p || (q == p && k < r) {
                                    prefer(g[q], t0[k][q])
                                } else {
                                    t0[k][q]
                                },
                        decreases rows.len() - r,
                    {
                        rows[r].put(p, v.copy());
                        r = r + 1;
                    }
                },
                None => {},
            }
            p = p + 1;
        }
        let mut out: Vec<Vec<Value>> = Vec::new();
        let mut k: usize = 0;
        while k < rows.len()
            invariant
                k <= rows@.len(),
                m == broadcast(g, t0),
                g == self.globals(),
                t0 == self.table(),
                rows@.len() == m.len(),
                forall|j: int| 0 <= j < rows@.len() ==> (#[trigger] rows@[j])@ == m[j],
                forall|j: int| 0 <= j < k ==> all_filled(#[trigger] m[j]),
                out@.len() == k,
                forall|j: int| 0 <= j < k ==> (#[trigger] out@[j])@ == filled(m[j]),
            decreases rows.len() - k,
        {
            match rows[k].filled_values() {
                Some(values) => out.push(values),
                None => {
                    assert(first_incomplete(m) == Some(k as int));
                    let res: Result<Vec<Vec<Value>>, QueryError> = Err(QueryError::Assembly { row: k });
                    assert(rows_view(res) == completed(m));
                    return res;
                },
            }
            k = k + 1;
        }
        assert(first_incomplete(m) is None);
        assert(out@.map_values(|row: Vec<Value>| row@) =~= Seq::new(m.len(), |i: int| filled(m[i])));
        Ok(out)
    }
}

/// What the dictionary sections among `names` give for `field`: the last one
/// that holds it wins.
pub open spec fn dictionary_slot(doc: Document, names: Seq<String>, field: Seq<char>) -> Option<
    Value,
>
    decreases names.len(),
{
    if names.len() == 0 {
        None
    } else {
        let earlier = dictionary_slot(doc, names.drop_last(), field);
        match find_section(doc.sections@, names.last()@) {
            Some(Section::Dictionary(d)) => prefer(find_entry(d@, field), earlier),
            _ => earlier,
        }
    }
}

/// What the tabular sections among `names` give for `field` in row `r`: the
/// last one that has a value there wins.
pub open spec fn table_slot(
    doc: Document,
    mapping: Mapping,
    names: Seq<String>,
    field: Seq<char>,
    r: int,
) -> Option<Value>
    decreases names.len(),
{
    if names.len() == 0 {
        None
    } else {
        let earlier = table_slot(doc, mapping, names.drop_last(), field, r);
        match find_section(doc.sections@, names.last()@) {
            Some(Section::Tabular(rows)) => prefer(
                tabular_cell(mapping, names.last()@, rows@, field, r),
                earlier,
            ),
            _ => earlier,
        }
    }
}

/// The number of output rows: the most data rows of any tabular section
/// among `names`.
pub open spec fn row_count(doc: Document, names: Seq<String>) -> nat
    decreases names.len(),
{
    if names.len() == 0 {
        0
    } else {
        let earlier = row_count(doc, names.drop_last());
        match find_section(doc.sections@, names.last()@) {
            Some(Section::Tabular(rows)) => if data_rows(rows@).len() > earlier {
                data_rows(rows@).len()
            } else {
                earlier
            },
            _ => earlier,
        }
    }
}

/// Output slot `p` of row `r`: a dictionary value wins over a tabular one.
pub open spec fn output_slot(
    fields: Seq<String>,
    doc: Document,
    mapping: Mapping,
    names: Seq<String>,
    r: int,
    p: int,
) -> Option<Value> {
    prefer(dictionary_slot(doc, names, fields[p]@), table_slot(doc, mapping, names, fields[p]@, r))
}

/// All output rows, each with one possibly empty slot per field.
pub open spec fn merged_table(
    fields: Seq<String>,
    doc: Document,
    mapping: Mapping,
    names: Seq<String>,
) -> Seq<Seq<Option<Value>>> {
    Seq::new(
        row_count(doc, names),
        |r: int| Seq::new(fields.len(), |p: int| output_slot(fields, doc, mapping, names, r, p)),
    )
}

/// Whether the document lacks the section `names[i]`.
pub open spec fn is_missing(doc: Document, names: Seq<String>, i: int) -> bool {
    find_section(doc.sections@, names[i]@) is None
}

/// The first position in `names` whose section the document lacks.
pub open spec fn first_missing(doc: Document, names: Seq<String>) -> Option<int> {
    if exists|i: int| 0 <= i < names.len() && #[trigger] is_missing(doc, names, i) {
        Some(
            choose|i: int|
                0 <= i < names.len() && #[trigger] is_missing(doc, names, i) && forall|j: int|
                    0 <= j < i ==> !#[trigger] is_missing(doc, names, j),
        )
    } else {
        None
    }
}

/// The outcome of projecting `fields` out of the sections `names` of `doc`.
pub open spec fn extraction(
    fields: Seq<String>,
    names: Seq<String>,
    doc: Document,
    mapping: Mapping,
) -> Result<Seq<Seq<Value>>, QueryError> {
    match first_missing(doc, names) {
        Some(i) => Err(QueryError::Lookup(names[i])),
        None => completed(merged_table(fields, doc, mapping, names)),
    }
}

proof fn lemma_table_slot_beyond(
    doc: Document,
    mapping: Mapping,
    names: Seq<String>,
    field: Seq<char>,
    r: int,
)
    requires
        r >= row_count(doc, names),
    ensures
        table_slot(doc, mapping, names, field, r) is None,
    decreases names.len(),
{
    if names.len() > 0 {
        lemma_table_slot_beyond(doc, mapping, names.drop_last(), field, r);
    }
}

/// Projects `field_names` out of the sections named `sections`, in that
/// order, and merges what they give into uniform rows.
pub fn extract_fields_from_sections(
    field_names: &Vec<String>,
    sections: &Vec<String>,
    doc: &Document,
    mapping: &Mapping,
) -> (res: Result<Vec<Vec<Value>>, QueryError>)
    ensures
        rows_view(res) == extraction(field_names@, sections@, *doc, *mapping),
{
    let ghost fields = field_names@;
    let ghost names = sections@;
    let n = field_names.len();
    let mut builder = ResultBuilder::new(field_names);
    let mut i: usize = 0;
    while i < sections.len()
        invariant
            i <= names.len(),
            names == sections@,
            fields == field_names@,
            n == fields.len(),
            builder.wf(),
            builder.fields() == fields,
            builder.globals() == Seq::new(
                n as nat,
                |p: int| dictionary_slot(*doc, names.take(i as int), fields[p]@),
            ),
            builder.table().len() == row_count(*doc, names.take(i as int)),
            forall|r: int, p: int|
                0 <= r < builder.table().len() && 0 <= p < n ==> #[trigger] builder.table()[r][p]
                    == table_slot(*doc, *mapping, names.take(i as int), fields[p]@, r),
            forall|j: int| 0 <= j < i ==> !#[trigger] is_missing(*doc, names, j),
        decreases sections.len() - i,
    {
        let ghost before = builder.table();
        let ghost prefix = names.take(i as int);
        let ghost next = names.take(i + 1);
        assert(next.drop_last() =~= prefix);
        assert(next.last() == names[i as int]);
        match doc.get(sections[i].as_str()) {
            None => {
                proof {
                    assert(is_missing(*doc, names, i as int));
                    assert(first_missing(*doc, names) == Some(i as int));
                }
                return Err(QueryError::Lookup(sections[i].clone()));
            },
            Some(section) => {
                match section {
                    Section::Dictionary(d) => {
                        builder.extract_fields_from_dict_section(d);
                        assert(builder.globals() =~= Seq::new(
                            n as nat,
                            |p: int| dictionary_slot(*doc, next, fields[p]@),
                        ));
                    },
                    Section::Tabular(rows) => {
                        builder.extract_fields_from_rows_section(rows, &sections[i], mapping);
                        assert forall|r: int, p: int|
                            0 <= r < builder.table().len() && 0 <= p < n implies #[trigger] builder.table()[r][p]
                                == table_slot(*doc, *mapping, next, fields[p]@, r) by {
                            if r >= before.len() {
                                lemma_table_slot_beyond(*doc, *mapping, prefix, fields[p]@, r);
                            }
                        }
                    },
                }
            },
        }
        i = i + 1;
    }
    assert(names.take(names.len() as int) =~= names);
    assert(first_missing(*doc, names) is None);
    let ghost m = broadcast(builder.globals(), builder.table());
    assert(m =~= merged_table(fields, *doc, *mapping, names)) by {
        assert forall|r: int| 0 <= r < m.len() implies #[trigger] m[r] =~= merged_table(
            fields,
            *doc,
            *mapping,
            names,
        )[r] by {}
    }
    builder.finish()
}

/// Two extractions of the same fields from the same sections of the same
/// document under the same mapping have the same outcome.
pub proof fn lemma_extraction_deterministic(
    fields: Seq<String>,
    names: Seq<String>,
    doc: Document,
    mapping: Mapping,
    first: Result<Vec<Vec<Value>>, QueryError>,
    second: Result<Vec<Vec<Value>>, QueryError>,
)
    requires
        rows_view(first) == extraction(fields, names, doc, mapping),
        rows_view(second) == extraction(fields, names, doc, mapping),
    ensures
        rows_view(first) == rows_view(second),
{
}

/// Every row of a successful extraction has one value per projected field,
/// and that value is the one its output slot holds.
pub proof fn lemma_rows_complete(
    fields: Seq<String>,
    names: Seq<String>,
    doc: Document,
    mapping: Mapping,
)
    ensures
        extraction(fields, names, doc, mapping) matches Ok(rows) ==> forall|r: int|
            0 <= r < rows.len() ==> {
                &&& (#[trigger] rows[r]).len() == fields.len()
                &&& forall|p: int|
                    0 <= p < fields.len() ==> Some(#[trigger] rows[r][p]) == output_slot(
                        fields,
                        doc,
                        mapping,
                        names,
                        r,
                        p,
                    )
            },
{
    let t = merged_table(fields, doc, mapping, names);
    if extraction(fields, names, doc, mapping) is Ok {
        assert forall|r: int| 0 <= r < t.len() implies all_filled(#[trigger] t[r]) by {
            if !all_filled(t[r]) {
                assert(exists|i: int| 0 <= i < t.len() && !all_filled(#[trigger] t[i]));
                lemma_some_incomplete_row_first(t, r);
            }
        }
    }
}

proof fn lemma_some_incomplete_row_first(t: Seq<Seq<Option<Value>>>, r: int)
    requires
        0 <= r < t.len(),
        !all_filled(t[r]),
    ensures
        first_incomplete(t) is Some,
{
    assert(exists|i: int| 0 <= i < t.len() && !all_filled(#[trigger] t[i]));
}

/// A tabular section without a usable header resolves no field by name: a
/// field without a mapping override has no column there.
pub proof fn lemma_no_header_no_column(
    mapping: Mapping,
    section: Seq<char>,
    rows: Seq<Vec<Value>>,
    field: Seq<char>,
)
    requires
        !has_usable_header(rows),
        override_of(mapping, section, field) is None,
    ensures
        column_of(mapping, section, rows, field) is None,
{
}

/// A mapping override decides a field's column, whatever the header says.
pub proof fn lemma_override_wins(
    mapping: Mapping,
    section: Seq<char>,
    rows: Seq<Vec<Value>>,
    field: Seq<char>,
    c: usize,
)
    requires
        override_of(mapping, section, field) == Some(c),
    ensures
        column_of(mapping, section, rows, field) == Some(c as int),
{
}

/// A field that a dictionary section gives has that value in every output
/// row.
pub proof fn lemma_dictionary_broadcast(
    fields: Seq<String>,
    names: Seq<String>,
    doc: Document,
    mapping: Mapping,
    p: int,
    v: Value,
)
    requires
        0 <= p < fields.len(),
        dictionary_slot(doc, names, fields[p]@) == Some(v),
    ensures
        extraction(fields, names, doc, mapping) matches Ok(rows) ==> forall|r: int|
            0 <= r < rows.len() ==> (#[trigger] rows[r])[p] == v,
{
    lemma_rows_complete(fields, names, doc, mapping);
}

} // verus!
