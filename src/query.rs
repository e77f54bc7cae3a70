use vstd::prelude::*;

use crate::config::Config;
use crate::document::{Document, Value};
use crate::engine::{extract_fields_from_sections, extraction, rows_view};
use crate::error::{QueryError, Unsupported};
use crate::mapping::Mapping;

verus! {

/// A parsed SQL statement, as far as queries look into it.
pub enum Statement {
    Query(Query),
    /// Any statement that is not a query.
    Other,
}

/// A query: its body and the clauses around it. Each optional clause holds
/// its SQL text where the statement has it.
pub struct Query {
    pub body: SetExpr,
    pub fetch: Option<String>,
    pub limit: Option<String>,
    pub with: Option<String>,
    pub offset: Option<String>,
    /// The `ORDER BY` items.
    pub order_by: Vec<String>,
}

/// The body of a query.
pub enum SetExpr {
    Select(Select),
    /// A set operation, `VALUES`, a nested query or another body.
    Other,
}

/// A `SELECT`: its projection and its `FROM` items, in order.
pub struct Select {
    pub projection: Vec<SelectItem>,
    pub from: Vec<TableWithJoins>,
}

/// One `FROM` item with the number of joins attached to it.
pub struct TableWithJoins {
    pub relation: TableFactor,
    pub joins: usize,
}

/// What a `FROM` item reads.
pub enum TableFactor {
    /// A named table: the parts of its dotted name, and whether it has an
    /// alias.
    Table { name: Vec<String>, has_alias: bool },
    /// A subquery, a table function, a nested join or another form.
    Other,
}

/// One projection item.
pub enum SelectItem {
    /// A bare, unaliased column name.
    Identifier(String),
    /// An expression, a wildcard or an aliased item.
    Other,
}

/// What a supported query asks for: output fields and source sections, both
/// in order.
#[derive(Clone, Debug, PartialEq, Eq)]
pub struct Plan {
    pub fields: Vec<String>,
    pub sections: Vec<String>,
}

/// The `SELECT` of the only statement, if it is a plain query without the
/// clauses that are not supported.
pub open spec fn select_of(statements: Seq<Statement>) -> Result<Select, Unsupported> {
    if statements.len() != 1 {
        Err(Unsupported::StatementCount)
    } else {
        match statements[0] {
            Statement::Query(q) => if q.fetch is Some {
                Err(Unsupported::Fetch)
            } else if q.limit is Some {
                Err(Unsupported::Limit)
            } else if q.with is Some {
                Err(Unsupported::With)
            } else if q.offset is Some {
                Err(Unsupported::Offset)
            } else if q.order_by@.len() != 0 {
                Err(Unsupported::OrderBy)
            } else {
                match q.body {
                    SetExpr::Select(s) => Ok(s),
                    SetExpr::Other => Err(Unsupported::NotASelect),
                }
            },
            Statement::Other => Err(Unsupported::NotAQuery),
        }
    }
}

/// The parts of a name joined by `.`.
pub open spec fn dotted(parts: Seq<String>) -> Seq<char>
    decreases parts.len(),
{
    if parts.len() == 0 {
        Seq::empty()
    } else if parts.len() == 1 {
        parts[0]@
    } else {
        dotted(parts.drop_last()) + seq!['.'] + parts.last()@
    }
}

/// A `FROM` item that names a section: a plain table with no alias and no
/// joins.
pub open spec fn is_section_item(t: TableWithJoins) -> bool {
    &&& t.joins == 0
    &&& t.relation matches TableFactor::Table { has_alias, .. } && !has_alias
}

/// A projection item that names a field.
pub open spec fn is_field_item(item: SelectItem) -> bool {
    item is Identifier
}

/// The plan of a translated statement list, as sequences of names.
pub open spec fn translation(statements: Seq<Statement>) -> Result<
    (Seq<Seq<char>>, Seq<Seq<char>>),
    Unsupported,
> {
    match select_of(statements) {
        Err(e) => Err(e),
        Ok(s) => if exists|i: int| 0 <= i < s.from@.len() && !is_section_item(#[trigger] s.from@[i]) {
            Err(Unsupported::FromItem)
        } else if exists|i: int|
            0 <= i < s.projection@.len() && !is_field_item(#[trigger] s.projection@[i]) {
            Err(Unsupported::Projection)
        } else {
            Ok(
                (
                    Seq::new(
                        s.projection@.len(),
                        |i: int| s.projection@[i]->Identifier_0@,
                    ),
                    Seq::new(
                        s.from@.len(),
                        |i: int| dotted(s.from@[i].relation->Table_name@),
                    ),
                ),
            )
        },
    }
}

/// The plan as sequences of names.
pub open spec fn plan_view(p: Plan) -> (Seq<Seq<char>>, Seq<Seq<char>>) {
    (p.fields@.map_values(|f: String| f@), p.sections@.map_values(|s: String| s@))
}

fn unsupported_field<T>(field: &Option<T>, clause: Unsupported) -> (r: Result<(), QueryError>)
    ensures
        field is Some ==> r == Err::<(), QueryError>(QueryError::Translation(clause)),
        field is None ==> r is Ok,
{
    match field {
        Some(_) => Err(QueryError::Translation(clause)),
        None => Ok(()),
    }
}

/// The `SELECT` of the only statement, if it is a plain query without the
/// clauses that are not supported.
pub fn parse_query(statements: Vec<Statement>) -> (r: Result<Select, QueryError>)
    ensures
        match select_of(statements@) {
            Ok(s) => r == Ok::<Select, QueryError>(s),
            Err(e) => r == Err::<Select, QueryError>(QueryError::Translation(e)),
        },
{
    let mut statements = statements;
    if statements.len() != 1 {
        return Err(QueryError::Translation(Unsupported::StatementCount));
    }
    let ghost all = statements@;
    let statement = match statements.pop() {
        Some(s) => s,
        None => return Err(QueryError::Translation(Unsupported::StatementCount)),
    };
    assert(statement == all[0]);
    let query = match statement {
        Statement::Query(q) => q,
        Statement::Other => return Err(QueryError::Translation(Unsupported::NotAQuery)),
    };
    if let Err(e) = unsupported_field(&query.fetch, Unsupported::Fetch) {
        return Err(e);
    }
    if let Err(e) = unsupported_field(&query.limit, Unsupported::Limit) {
        return Err(e);
    }
    if let Err(e) = unsupported_field(&query.with, Unsupported::With) {
        return Err(e);
    }
    if let Err(e) = unsupported_field(&query.offset, Unsupported::Offset) {
        return Err(e);
    }
    if query.order_by.len() != 0 {
        return Err(QueryError::Translation(Unsupported::OrderBy));
    }
    match query.body {
        SetExpr::Select(s) => Ok(s),
        SetExpr::Other => Err(QueryError::Translation(Unsupported::NotASelect)),
    }
}

/// The parts of `parts` joined by `.`.
fn join_name(parts: &Vec<String>) -> (r: String)
    ensures
        r@ == dotted(parts@),
{
    let mut s = String::new();
    let mut k: usize = 0;
    assert(parts@.take(0) =~= Seq::<String>::empty());
    while k < parts.len()
        invariant
            k <= parts@.len(),
            s@ == dotted(parts@.take(k as int)),
        decreases parts.len() - k,
    {
        let ghost before = s@;
        assert(parts@.take(k + 1).drop_last() =~= parts@.take(k as int));
        assert(parts@.take(k + 1).last() == parts@[k as int]);
        if k > 0 {
            proof {
                reveal_strlit(".");
            }
            s.append(".");
        }
        s.append(parts[k].as_str());
        if k == 0 {
            assert(s@ =~= parts@[0]@);
        } else {
            assert(s@ =~= before + seq!['.'] + parts@[k as int]@);
        }
        k = k + 1;
    }
    assert(parts@.take(parts@.len() as int) =~= parts@);
    s
}

/// The plan of the only statement in `statements`, if it is a supported
/// `SELECT`: bare column names, read from plainly named sections.
pub fn translate(statements: Vec<Statement>) -> (r: Result<Plan, QueryError>)
    ensures
        match translation(statements@) {
            Ok(v) => r is Ok && plan_view(r->Ok_0) == v,
            Err(e) => r == Err::<Plan, QueryError>(QueryError::Translation(e)),
        },
{
    let ghost st = statements@;
    let select = match parse_query(statements) {
        Ok(s) => s,
        Err(e) => return Err(e),
    };
    let ghost from = select.from@;
    let ghost proj = select.projection@;
    let mut sections: Vec<String> = Vec::new();
    let mut i: usize = 0;
    while i < select.from.len()
        invariant
            i <= from.len(),
            select_of(st) == Ok::<Select, Unsupported>(select),
            st == statements@,
            from == select.from@,
            sections@.len() == i,
            forall|j: int| 0 <= j < i ==> is_section_item(#[trigger] from[j]),
            forall|j: int|
                0 <= j < i ==> (#[trigger] sections@[j])@ == dotted(from[j].relation->Table_name@),
        decreases select.from.len() - i,
    {
        let item = &select.from[i];
        if item.joins != 0 {
            assert(!is_section_item(select.from@[i as int]));
            assert(translation(st) == Err::<(Seq<Seq<char>>, Seq<Seq<char>>), Unsupported>(Unsupported::FromItem));
            return Err(QueryError::Translation(Unsupported::FromItem));
        }
        match &item.relation {
            TableFactor::Table { name, has_alias } => {
                if *has_alias {
                    assert(!is_section_item(select.from@[i as int]));
            assert(translation(st) == Err::<(Seq<Seq<char>>, Seq<Seq<char>>), Unsupported>(Unsupported::FromItem));
                    return Err(QueryError::Translation(Unsupported::FromItem));
                }
                sections.push(join_name(name));
            },
            TableFactor::Other => {
                assert(!is_section_item(select.from@[i as int]));
            assert(translation(st) == Err::<(Seq<Seq<char>>, Seq<Seq<char>>), Unsupported>(Unsupported::FromItem));
                return Err(QueryError::Translation(Unsupported::FromItem));
            },
        }
        i = i + 1;
    }
    let mut fields: Vec<String> = Vec::new();
    let mut i: usize = 0;
    while i < select.projection.len()
        invariant
            i <= proj.len(),
            select_of(st) == Ok::<Select, Unsupported>(select),
            st == statements@,
            forall|j: int| 0 <= j < from.len() ==> is_section_item(#[trigger] from[j]),
            from == select.from@,
            sections@.len() == from.len(),
            forall|j: int|
                0 <= j < from.len() ==> (#[trigger] sections@[j])@ == dotted(from[j].relation->Table_name@),
            proj == select.projection@,
            fields@.len() == i,
            forall|j: int| 0 <= j < i ==> is_field_item(#[trigger] proj[j]),
            forall|j: int| 0 <= j < i ==> (#[trigger] fields@[j])@ == proj[j]->Identifier_0@,
        decreases select.projection.len() - i,
    {
        match &select.projection[i] {
            SelectItem::Identifier(name) => {
                fields.push(name.clone());
            },
            SelectItem::Other => {
                assert(!is_field_item(select.projection@[i as int]));
                assert(translation(st) == Err::<(Seq<Seq<char>>, Seq<Seq<char>>), Unsupported>(Unsupported::Projection));
                return Err(QueryError::Translation(Unsupported::Projection));
            },
        }
        i = i + 1;
    }
    let plan = Plan { fields, sections };
    assert(plan_view(plan).0 =~= Seq::new(proj.len(), |i: int| proj[i]->Identifier_0@));
    assert(plan_view(plan).1 =~= Seq::new(from.len(), |i: int| dotted(from[i].relation->Table_name@)));
    Ok(plan)
}

/// Two translations of the same statements give plans with the same field
/// and section names, or the same error.
pub proof fn lemma_translation_deterministic(
    statements: Seq<Statement>,
    first: Result<Plan, QueryError>,
    second: Result<Plan, QueryError>,
)
    requires
        match translation(statements) {
            Ok(v) => first is Ok && plan_view(first->Ok_0) == v,
            Err(e) => first == Err::<Plan, QueryError>(QueryError::Translation(e)),
        },
        match translation(statements) {
            Ok(v) => second is Ok && plan_view(second->Ok_0) == v,
            Err(e) => second == Err::<Plan, QueryError>(QueryError::Translation(e)),
        },
    ensures
        first is Ok <==> second is Ok,
        first is Ok ==> plan_view(first->Ok_0) == plan_view(second->Ok_0),
        first is Err ==> first == second,
{
}

/// Runs the query `statements` against `doc` with the column overrides of
/// `config`.
pub fn query_ion(doc: &Document, statements: Vec<Statement>, config: &Config) -> (res: Result<
    Vec<Vec<Value>>,
    QueryError,
>)
    ensures
        match translation(statements@) {
            Err(e) => res == Err::<Vec<Vec<Value>>, QueryError>(QueryError::Translation(e)),
            Ok(v) => exists|p: Plan|
                plan_view(p) == v && rows_view(res) == extraction(
                    p.fields@,
                    p.sections@,
                    *doc,
                    config.mappings,
                ),
        },
{
    let plan = match translate(statements) {
        Ok(p) => p,
        Err(e) => return Err(e),
    };
    extract_fields_from_sections(&plan.fields, &plan.sections, doc, &config.mappings)
}

} // verus!
