//! Statements whose shape depends on how many values they take.
//!
//! A query is a list of parts: fixed text, and marks at which a value is
//! bound. The values stand beside it in the order of the marks.
use crate::codec::{edge_type_name, edge_type_str};
use crate::ids::{id_text, parse_id_or_nil, uuid_text};
use crate::memory::{EdgeType, MemoryId};
use crate::text::{copy_text, has_text, lemma_views_push, views};
use vstd::prelude::*;

verus! {

/// A part of a statement.
#[derive(Clone, Copy, Debug)]
pub enum SqlPart {
    /// Text that is the same in every such statement.
    Text(&'static str),
    /// A place at which a value is bound.
    Mark,
}

/// A value that is bound at a mark.
#[derive(Debug)]
pub enum SqlValue {
    Text(String),
    Integer(i64),
}

/// The mathematical form of a bound value.
pub enum SqlDatum {
    Text(Seq<char>),
    Integer(i64),
}

impl View for SqlValue {
    type V = SqlDatum;

    open spec fn view(&self) -> SqlDatum {
        match *self {
            SqlValue::Text(s) => SqlDatum::Text(s@),
            SqlValue::Integer(i) => SqlDatum::Integer(i),
        }
    }
}

/// A statement with its values.
#[derive(Debug)]
pub struct SqlQuery {
    pub parts: Vec<SqlPart>,
    pub values: Vec<SqlValue>,
}

/// The mathematical form of bound values.
pub open spec fn data_of(values: Seq<SqlValue>) -> Seq<SqlDatum> {
    values.map_values(|v: SqlValue| v@)
}

/// How many values a statement binds.
pub open spec fn marks(parts: Seq<SqlPart>) -> nat
    decreases parts.len(),
{
    if parts.len() == 0 {
        0
    } else {
        marks(parts.drop_last()) + if parts.last() is Mark {
            1nat
        } else {
            0nat
        }
    }
}

proof fn lemma_marks_push(parts: Seq<SqlPart>, part: SqlPart)
    ensures
        marks(parts.push(part)) == marks(parts) + if part is Mark {
            1nat
        } else {
            0nat
        },
{
    assert(parts.push(part).drop_last() =~= parts);
}

/// The text of one fixed part.
pub open spec fn part_text(part: SqlPart) -> Seq<char> {
    match part {
        SqlPart::Text(s) => s@,
        SqlPart::Mark => "?"@,
    }
}

/// The text of a statement.
pub open spec fn sql_text(parts: Seq<SqlPart>) -> Seq<char>
    decreases parts.len(),
{
    if parts.len() == 0 {
        Seq::empty()
    } else {
        sql_text(parts.drop_last()) + part_text(parts.last())
    }
}

impl SqlQuery {
    /// Whether the values fit the marks.
    pub open spec fn balanced(self) -> bool {
        marks(self.parts@) == self.values@.len()
    }

    fn start() -> (res: SqlQuery)
        ensures
            res.balanced(),
            sql_text(res.parts@) == Seq::<char>::empty(),
            data_of(res.values@) == Seq::<SqlDatum>::empty(),
    {
        let res = SqlQuery { parts: Vec::new(), values: Vec::new() };
        assert(data_of(res.values@) =~= Seq::empty());
        res
    }

    fn text(&mut self, s: &'static str)
        requires
            old(self).balanced(),
        ensures
            final(self).balanced(),
            sql_text(final(self).parts@) == sql_text(old(self).parts@) + s@,
            final(self).values == old(self).values,
    {
        proof {
            lemma_marks_push(self.parts@, SqlPart::Text(s));
            assert(self.parts@.push(SqlPart::Text(s)).drop_last() =~= self.parts@);
        }
        self.parts.push(SqlPart::Text(s));
    }

    fn bind(&mut self, value: SqlValue)
        requires
            old(self).balanced(),
        ensures
            final(self).balanced(),
            sql_text(final(self).parts@) == sql_text(old(self).parts@) + "?"@,
            data_of(final(self).values@) == data_of(old(self).values@).push(value@),
    {
        proof {
            lemma_marks_push(self.parts@, SqlPart::Mark);
            assert(self.parts@.push(SqlPart::Mark).drop_last() =~= self.parts@);
        }
        let ghost before = self.values@;
        self.parts.push(SqlPart::Mark);
        self.values.push(value);
        assert(data_of(self.values@) =~= data_of(before).push(value@));
    }

    /// The text of the statement, with a question mark at each mark.
    pub fn render(&self) -> (res: String)
        ensures
            res@ == sql_text(self.parts@),
    {
        let mut out = String::new();
        for i in 0..self.parts.len()
            invariant
                out@ == sql_text(self.parts@.take(i as int)),
        {
            proof {
                assert(self.parts@.take(i + 1).drop_last() =~= self.parts@.take(i as int));
            }
            match self.parts[i] {
                SqlPart::Text(s) => out.append(s),
                SqlPart::Mark => out.append("?"),
            }
        }
        proof {
            assert(self.parts@.take(self.parts.len() as int) =~= self.parts@);
        }
        out
    }
}

/// `n` copies of a text, with a separator between neighbours.
pub open spec fn repeated(item: Seq<char>, sep: Seq<char>, n: nat) -> Seq<char>
    decreases n,
{
    if n == 0 {
        Seq::empty()
    } else if n == 1 {
        item
    } else {
        repeated(item, sep, (n - 1) as nat) + sep + item
    }
}

// ---------------------------------------------------------------------------
// Traversal
// ---------------------------------------------------------------------------
/// The texts of identities as bound values.
pub open spec fn id_data(ids: Seq<MemoryId>) -> Seq<SqlDatum> {
    ids.map_values(|id: MemoryId| SqlDatum::Text(uuid_text(id.value)))
}

/// The texts of edge types as bound values.
pub open spec fn type_data(types: Seq<EdgeType>) -> Seq<SqlDatum> {
    types.map_values(|t: EdgeType| SqlDatum::Text(edge_type_name(t)))
}

/// The largest depth that a statement can hold, at most the wanted one.
pub open spec fn depth_limit(max_depth: usize) -> i64 {
    if max_depth <= i64::MAX {
        max_depth as i64
    } else {
        i64::MAX
    }
}

/// The text of the recursive traversal from `roots` roots over edges of one of
/// `types` types (of any type where `types` is 0).
pub open spec fn traversal_text(roots: nat, types: nat) -> Seq<char> {
    let filter = if types == 0 {
        ""@
    } else {
        " AND e.edge_type IN ("@ + repeated("?"@, ","@, types) + ")"@
    };
    "WITH RECURSIVE reach(id, depth) AS ("@ + repeated("SELECT "@ + "?"@ + ", 0"@, " UNION ALL "@, roots)
        + " UNION ALL SELECT e.target, r.depth + 1 FROM reach r JOIN edges e ON e.source = r.id WHERE r.depth < "@
        + "?"@ + filter + ") SELECT DISTINCT id FROM reach"@
}

/// The edge types that restrict a traversal: none restricts nothing.
pub open spec fn types_or_all(types: Option<Seq<EdgeType>>) -> Seq<EdgeType> {
    match types {
        Some(ts) => ts,
        None => Seq::empty(),
    }
}

pub open spec fn opt_types(types: Option<Vec<EdgeType>>) -> Option<Seq<EdgeType>> {
    match types {
        Some(ts) => Some(ts@),
        None => None,
    }
}

/// The statement that finds what can be reached from the roots in at most
/// `max_depth` steps along outgoing edges. Without roots there is nothing to
/// ask.
pub fn subgraph_query(
    roots: &Vec<MemoryId>,
    max_depth: usize,
    edge_types: &Option<Vec<EdgeType>>,
) -> (res: Option<SqlQuery>)
    ensures
        res is None <==> roots@.len() == 0,
        res is Some ==> {
            let types = types_or_all(opt_types(*edge_types));
            &&& res->0.balanced()
            &&& sql_text(res->0.parts@) == traversal_text(roots@.len(), types.len())
            &&& data_of(res->0.values@) == id_data(roots@).push(
                SqlDatum::Integer(depth_limit(max_depth)),
            ) + type_data(types)
        },
{
    if roots.len() == 0 {
        return None;
    }
    let ghost types = types_or_all(opt_types(*edge_types));
    let mut q = SqlQuery::start();
    q.text("WITH RECURSIVE reach(id, depth) AS (");
    let ghost head = sql_text(q.parts@);
    let ghost unit = "SELECT "@ + "?"@ + ", 0"@;
    proof {
        assert(head =~= "WITH RECURSIVE reach(id, depth) AS ("@);
    }
    for i in 0..roots.len()
        invariant
            q.balanced(),
            unit == "SELECT "@ + "?"@ + ", 0"@,
            sql_text(q.parts@) == head + repeated(unit, " UNION ALL "@, i as nat),
            data_of(q.values@) == id_data(roots@.take(i as int)),
    {
        let ghost before = sql_text(q.parts@);
        if i > 0 {
            q.text(" UNION ALL ");
        }
        q.text("SELECT ");
        q.bind(SqlValue::Text(id_text(&roots[i])));
        q.text(", 0");
        proof {
            assert(sql_text(q.parts@) =~= head + repeated(unit, " UNION ALL "@, (i + 1) as nat));
            assert(data_of(q.values@) =~= id_data(roots@.take(i + 1)));
        }
    }
    proof {
        assert(roots@.take(roots.len() as int) =~= roots@);
    }
    let ghost middle = sql_text(q.parts@);
    q.text(
        " UNION ALL SELECT e.target, r.depth + 1 FROM reach r JOIN edges e ON e.source = r.id WHERE r.depth < ",
    );
    let depth: i64 = if max_depth as u64 <= i64::MAX as u64 {
        max_depth as i64
    } else {
        i64::MAX
    };
    q.bind(SqlValue::Integer(depth));
    let ghost upto = sql_text(q.parts@);
    let ghost bound = data_of(q.values@);
    if let Some(ts) = edge_types {
        if ts.len() > 0 {
            q.text(" AND e.edge_type IN (");
            let ghost open = sql_text(q.parts@);
            for i in 0..ts.len()
                invariant
                    q.balanced(),
                    sql_text(q.parts@) == open + repeated("?"@, ","@, i as nat),
                    data_of(q.values@) == bound + type_data(ts@.take(i as int)),
            {
                if i > 0 {
                    q.text(",");
                }
                q.bind(SqlValue::Text(copy_text(edge_type_str(ts[i]))));
                proof {
                    assert(sql_text(q.parts@) =~= open + repeated("?"@, ","@, (i + 1) as nat));
                    assert(data_of(q.values@) =~= bound + type_data(ts@.take(i + 1)));
                }
            }
            proof {
                assert(ts@.take(ts.len() as int) =~= ts@);
            }
            q.text(")");
        }
    }
    q.text(") SELECT DISTINCT id FROM reach");
    proof {
        reveal_strlit("");
        assert(sql_text(q.parts@) =~= traversal_text(roots@.len(), types.len()));
        assert(data_of(q.values@) =~= id_data(roots@).push(
            SqlDatum::Integer(depth_limit(max_depth)),
        ) + type_data(types));
    }
    Some(q)
}

// ---------------------------------------------------------------------------
// Tags
// ---------------------------------------------------------------------------
/// The items of a list without repetitions, each at its first place.
pub open spec fn distinct<A>(items: Seq<A>) -> Seq<A>
    decreases items.len(),
{
    if items.len() == 0 {
        Seq::empty()
    } else {
        let rest = distinct(items.drop_last());
        if rest.contains(items.last()) {
            rest
        } else {
            rest.push(items.last())
        }
    }
}

/// Dropping repetitions keeps every item, each once.
pub proof fn law_distinct<A>(items: Seq<A>)
    ensures
        distinct(items).no_duplicates(),
        forall|x: A| #[trigger] distinct(items).contains(x) <==> items.contains(x),
        distinct(items).len() <= items.len(),
    decreases items.len(),
{
    if items.len() > 0 {
        let head = items.drop_last();
        let rest = distinct(head);
        let x = items.last();
        let out = distinct(items);
        law_distinct(head);
        assert(items =~= head.push(x));
        if !rest.contains(x) {
            assert forall|i: int, j: int|
                0 <= i < out.len() && 0 <= j < out.len() && i != j implies out[i] != out[j] by {
                if i < rest.len() {
                    assert(rest.contains(rest[i]));
                }
                if j < rest.len() {
                    assert(rest.contains(rest[j]));
                }
            }
        }
        assert forall|y: A| #[trigger] out.contains(y) <==> items.contains(y) by {
            if items.contains(y) {
                let k = choose|k: int| 0 <= k < items.len() && items[k] == y;
                if k < head.len() {
                    assert(head[k] == y);
                    assert(head.contains(y));
                    assert(rest.contains(y));
                    let m = choose|m: int| 0 <= m < rest.len() && rest[m] == y;
                    assert(out[m] == y);
                } else if !rest.contains(x) {
                    assert(out[rest.len() as int] == y);
                }
            }
            if out.contains(y) {
                let k = choose|k: int| 0 <= k < out.len() && out[k] == y;
                if k < rest.len() {
                    assert(rest[k] == y);
                    assert(rest.contains(y));
                    assert(head.contains(y));
                    let m = choose|m: int| 0 <= m < head.len() && head[m] == y;
                    assert(items[m] == y);
                } else {
                    assert(items[items.len() - 1] == y);
                }
            }
        }
    }
}

/// The texts of a list without repetitions.
pub fn distinct_texts(items: &Vec<String>) -> (res: Vec<String>)
    ensures
        views(res@) == distinct(views(items@)),
{
    let ghost all = views(items@);
    let mut out: Vec<String> = Vec::new();
    proof {
        assert(views(out@) =~= distinct(all.take(0)));
    }
    for i in 0..items.len()
        invariant
            all == views(items@),
            views(out@) == distinct(all.take(i as int)),
    {
        proof {
            assert(all.take(i + 1).drop_last() =~= all.take(i as int));
        }
        if !has_text(&out, items[i].as_str()) {
            let item = copy_text(items[i].as_str());
            proof {
                lemma_views_push(out@, item);
            }
            out.push(item);
        }
    }
    proof {
        assert(all.take(all.len() as int) =~= all);
    }
    out
}

/// Texts as bound values.
pub open spec fn text_data(items: Seq<Seq<char>>) -> Seq<SqlDatum> {
    items.map_values(|s: Seq<char>| SqlDatum::Text(s))
}

/// The text of the search for memories that carry any (`any`) or all of `n`
/// tags.
pub open spec fn tags_text(n: nat, any: bool) -> Seq<char> {
    let list = repeated("?"@, ","@, n);
    if any {
        "SELECT DISTINCT memory_id FROM memory_tags WHERE tag IN ("@ + list + ")"@
    } else {
        "SELECT memory_id FROM memory_tags WHERE tag IN ("@ + list
            + ") GROUP BY memory_id HAVING COUNT(DISTINCT tag) = "@ + "?"@
    }
}

/// The statement that finds the memories that carry the tags: any of them, or
/// all of them. Repeated tags count once. Without tags nothing matches, and
/// there is nothing to ask.
pub fn tags_query(tags: &Vec<String>, any: bool) -> (res: Option<SqlQuery>)
    ensures
        res is None <==> tags@.len() == 0,
        res is Some ==> {
            let wanted = distinct(views(tags@));
            &&& res->0.balanced()
            &&& sql_text(res->0.parts@) == tags_text(wanted.len(), any)
            &&& data_of(res->0.values@) == if any {
                text_data(wanted)
            } else {
                text_data(wanted).push(SqlDatum::Integer(wanted.len() as i64))
            }
        },
{
    if tags.len() == 0 {
        return None;
    }
    let wanted = distinct_texts(tags);
    let ghost all = views(wanted@);
    let mut q = SqlQuery::start();
    if any {
        q.text("SELECT DISTINCT memory_id FROM memory_tags WHERE tag IN (");
    } else {
        q.text("SELECT memory_id FROM memory_tags WHERE tag IN (");
    }
    let ghost open = sql_text(q.parts@);
    let ghost bound = data_of(q.values@);
    proof {
        assert(open =~= if any {
            "SELECT DISTINCT memory_id FROM memory_tags WHERE tag IN ("@
        } else {
            "SELECT memory_id FROM memory_tags WHERE tag IN ("@
        });
    }
    for i in 0..wanted.len()
        invariant
            all == views(wanted@),
            q.balanced(),
            sql_text(q.parts@) == open + repeated("?"@, ","@, i as nat),
            data_of(q.values@) == text_data(all.take(i as int)),
    {
        if i > 0 {
            q.text(",");
        }
        q.bind(SqlValue::Text(copy_text(wanted[i].as_str())));
        proof {
            assert(sql_text(q.parts@) =~= open + repeated("?"@, ","@, (i + 1) as nat));
            assert(data_of(q.values@) =~= text_data(all.take(i + 1)));
        }
    }
    proof {
        assert(all.take(all.len() as int) =~= all);
    }
    if any {
        q.text(")");
    } else {
        q.text(") GROUP BY memory_id HAVING COUNT(DISTINCT tag) = ");
        q.bind(SqlValue::Integer(wanted.len() as i64));
    }
    proof {
        assert(sql_text(q.parts@) =~= tags_text(all.len(), any));
    }
    Some(q)
}

// ---------------------------------------------------------------------------
// Candidates
// ---------------------------------------------------------------------------
/// The text of the read of the embeddings of `n` candidates.
pub open spec fn candidates_text(n: nat) -> Seq<char> {
    "SELECT id, embedding FROM memories WHERE embedding IS NOT NULL AND id IN ("@ + repeated(
        "?"@,
        ","@,
        n,
    ) + ")"@
}

/// The statement that reads the embeddings of the candidates. Without
/// candidates, and where nothing is wanted, there is nothing to ask.
pub fn candidates_query(candidates: &Vec<MemoryId>, k: usize) -> (res: Option<SqlQuery>)
    ensures
        res is None <==> candidates@.len() == 0 || k == 0,
        res is Some ==> {
            &&& res->0.balanced()
            &&& sql_text(res->0.parts@) == candidates_text(candidates@.len())
            &&& data_of(res->0.values@) == id_data(candidates@)
        },
{
    if candidates.len() == 0 || k == 0 {
        return None;
    }
    let mut q = SqlQuery::start();
    q.text("SELECT id, embedding FROM memories WHERE embedding IS NOT NULL AND id IN (");
    let ghost open = sql_text(q.parts@);
    proof {
        assert(open
            =~= "SELECT id, embedding FROM memories WHERE embedding IS NOT NULL AND id IN ("@);
    }
    for i in 0..candidates.len()
        invariant
            q.balanced(),
            sql_text(q.parts@) == open + repeated("?"@, ","@, i as nat),
            data_of(q.values@) == id_data(candidates@.take(i as int)),
    {
        if i > 0 {
            q.text(",");
        }
        q.bind(SqlValue::Text(id_text(&candidates[i])));
        proof {
            assert(sql_text(q.parts@) =~= open + repeated("?"@, ","@, (i + 1) as nat));
            assert(data_of(q.values@) =~= id_data(candidates@.take(i + 1)));
        }
    }
    proof {
        assert(candidates@.take(candidates.len() as int) =~= candidates@);
    }
    q.text(")");
    Some(q)
}

// ---------------------------------------------------------------------------
// Results
// ---------------------------------------------------------------------------
/// The identities of a list of texts; what is no UUID reads as nil.
pub open spec fn ids_of(rows: Seq<Seq<char>>) -> Seq<MemoryId> {
    rows.map_values(|s: Seq<char>| MemoryId { value: crate::ids::id_or_nil(s) as u128 })
}

/// Whether a list holds an identity.
pub fn has_id(list: &Vec<MemoryId>, id: MemoryId) -> (res: bool)
    ensures
        res == list@.contains(id),
{
    for i in 0..list.len()
        invariant
            forall|j: int| 0 <= j < i ==> list@[j] != id,
    {
        if list[i] == id {
            assert(list@[i as int] == id);
            return true;
        }
    }
    false
}

/// The distinct identities that a statement gave, in the order of their first
/// appearance.
pub fn collect_ids(rows: &Vec<String>) -> (res: Vec<MemoryId>)
    ensures
        res@ == distinct(ids_of(views(rows@))),
{
    let ghost all = ids_of(views(rows@));
    let mut out: Vec<MemoryId> = Vec::new();
    proof {
        assert(out@ =~= distinct(all.take(0)));
    }
    for i in 0..rows.len()
        invariant
            all == ids_of(views(rows@)),
            out@ == distinct(all.take(i as int)),
    {
        let id = parse_id_or_nil::<MemoryId>(rows[i].as_str());
        proof {
            assert(all.take(i + 1).drop_last() =~= all.take(i as int));
            assert(all[i as int] == id);
        }
        if !has_id(&out, id) {
            out.push(id);
        }
    }
    proof {
        assert(all.take(all.len() as int) =~= all);
    }
    out
}

} // verus!
