//! The task store: the sole authority for translating between the
//! persisted records file and the in-memory task sequence.
//!
//! The file is comma-separated text, one record per line, opened by a
//! header row naming the fields `id,name,due,completed`. [`spec_decode`]
//! is the meaning of a file's text; [`encode_spec`] is the text written
//! for a task sequence. Reading pins its result to [`spec_decode`], and
//! writing guarantees that the text it produces decodes back to exactly
//! the sequence it meant to store.

use crate::csvio::{
    bom_safe, csv_concat, csv_line_of, csv_parse, csv_push_line, csv_rows_of,
    lemma_csv_concat_push, uniform_arity,
};
use crate::numtext::{
    bool_text, bool_to_text, dec_digits, lemma_parse_bool_inverts_text, lemma_parse_u32_inverts_dec,
    parse_bool, parse_bool_spec, parse_u32, parse_u32_spec, u32_to_dec,
};
use crate::task::{Task, TaskView};
use crate::time::{
    format_rfc3339, parse_rfc3339, parts_of, rfc3339_of, rfc3339_parts, timestamp_from_parts,
    timestamp_from_parts_exec, lemma_parts_roundtrip,
};
use vstd::prelude::*;

verus! {

/// The ways a store operation can fail.
#[derive(Clone, Copy, PartialEq, Eq, Structural, Debug)]
pub enum StoreError {
    /// The backing file could not be opened, created or flushed.
    IOFailure,
    /// A stored record does not parse into a valid task.
    DecodeFailure,
    /// The replacement identifier does not fit the identifier's width.
    IntegerOverflow,
}

/// The header row that opens every nonempty file.
pub open spec fn header_row() -> Seq<Seq<char>> {
    seq!["id"@, "name"@, "due"@, "completed"@]
}

/// The record written for one task: identifier, name, due date,
/// completion flag.
pub open spec fn task_row(t: TaskView) -> Seq<Seq<char>> {
    seq![dec_digits(t.id as int), t.name, rfc3339_of(t.due), bool_text(t.completed)]
}

/// All records of a file holding `ts`: the header, then one record per
/// task, in order.
pub open spec fn rows_of_tasks(ts: Seq<TaskView>) -> Seq<Seq<Seq<char>>> {
    seq![header_row()] + ts.map_values(|t: TaskView| task_row(t))
}

/// The full text written for the task sequence `ts`.
pub open spec fn encode_spec(ts: Seq<TaskView>) -> Seq<char> {
    csv_concat(rows_of_tasks(ts))
}

/// The task a record denotes: four fields, in order a decimal
/// identifier, a free-text name, an RFC 3339 due date the store can
/// carry, and a boolean word. `None` when the record does not conform.
pub open spec fn decode_row(row: Seq<Seq<char>>) -> Option<TaskView> {
    if row.len() != 4 {
        None
    } else {
        match parse_u32_spec(row[0]) {
            None => None,
            Some(id) => match rfc3339_parts(row[2]) {
                None => None,
                Some(p) => match timestamp_from_parts(p) {
                    None => None,
                    Some(due) => match parse_bool_spec(row[3]) {
                        None => None,
                        Some(completed) => Some(TaskView { id, name: row[1], due, completed }),
                    },
                },
            },
        }
    }
}

/// The tasks a record sequence denotes, in order; `None` as soon as one
/// record does not conform.
pub open spec fn decode_rows(rows: Seq<Seq<Seq<char>>>) -> Option<Seq<TaskView>>
    decreases rows.len(),
{
    if rows.len() == 0 {
        Some(Seq::empty())
    } else {
        match decode_row(rows[0]) {
            None => None,
            Some(t) => match decode_rows(rows.drop_first()) {
                None => None,
                Some(ts) => Some(seq![t] + ts),
            },
        }
    }
}

/// The task sequence a file's text denotes. Empty text is an empty
/// store; otherwise the text must split into records, the first record
/// must be the header, and every further record must denote a task.
pub open spec fn spec_decode(text: Seq<char>) -> Option<Seq<TaskView>> {
    if text.len() == 0 {
        Some(Seq::empty())
    } else {
        match csv_rows_of(text) {
            None => None,
            Some(rows) => if rows.len() == 0 {
                Some(Seq::empty())
            } else if rows[0] != header_row() {
                None
            } else {
                decode_rows(rows.drop_first())
            },
        }
    }
}

/// Whether some task in `ts` carries the identifier `id`.
pub open spec fn has_id(ts: Seq<TaskView>, id: u32) -> bool {
    exists|i: int| 0 <= i < ts.len() && (#[trigger] ts[i]).id == id
}

/// What writing the candidate `t` onto the existing tasks `ts` stores:
/// the candidate is appended, with its identifier replaced by the prior
/// task count whenever that identifier is already taken; the write fails
/// only when that count does not fit the identifier's width.
pub open spec fn plan_spec(ts: Seq<TaskView>, t: TaskView) -> Result<Seq<TaskView>, StoreError> {
    if !has_id(ts, t.id) {
        Ok(ts.push(t))
    } else if ts.len() <= u32::MAX {
        Ok(
            ts.push(
                TaskView { id: ts.len() as u32, name: t.name, due: t.due, completed: t.completed },
            ),
        )
    } else {
        Err(StoreError::IntegerOverflow)
    }
}

/// Every task a conforming record sequence denotes is well-formed.
proof fn lemma_decoded_rows_wf(rows: Seq<Seq<Seq<char>>>)
    requires
        decode_rows(rows) is Some,
    ensures
        forall|i: int|
            0 <= i < decode_rows(rows)->Some_0.len() ==> (#[trigger] decode_rows(
                rows,
            )->Some_0[i]).wf(),
    decreases rows.len(),
{
    if rows.len() > 0 {
        lemma_decoded_rows_wf(rows.drop_first());
        let t = decode_row(rows[0])->Some_0;
        let ts = decode_rows(rows.drop_first())->Some_0;
        assert(forall|i: int| 0 <= i < ts.len() ==> (seq![t] + ts)[i + 1] == ts[i]);
        assert((seq![t] + ts)[0] == t);
    }
}

/// Every task a conforming file denotes is well-formed.
pub proof fn lemma_decoded_wf(text: Seq<char>)
    requires
        spec_decode(text) is Some,
    ensures
        forall|i: int|
            0 <= i < spec_decode(text)->Some_0.len() ==> (#[trigger] spec_decode(
                text,
            )->Some_0[i]).wf(),
{
    if text.len() != 0 {
        match csv_rows_of(text) {
            Some(rows) => {
                if rows.len() != 0 && rows[0] == header_row() {
                    lemma_decoded_rows_wf(rows.drop_first());
                }
            },
            None => {},
        }
    }
}

/// Decoding peels records off the back as well as off the front.
proof fn lemma_decode_rows_push(rows: Seq<Seq<Seq<char>>>, r: Seq<Seq<char>>)
    ensures
        decode_rows(rows.push(r)) == (match (decode_rows(rows), decode_row(r)) {
            (Some(ts), Some(t)) => Some(ts.push(t)),
            _ => None,
        }),
    decreases rows.len(),
{
    if rows.len() == 0 {
        assert(rows.push(r)[0] == r);
        assert(rows.push(r).drop_first() =~= Seq::<Seq<Seq<char>>>::empty());
        if decode_row(r) is Some {
            let t = decode_row(r)->Some_0;
            assert(seq![t] + Seq::<TaskView>::empty() =~= Seq::<TaskView>::empty().push(t));
        }
    } else {
        assert(rows.push(r)[0] == rows[0]);
        assert(rows.push(r).drop_first() =~= rows.drop_first().push(r));
        lemma_decode_rows_push(rows.drop_first(), r);
        if decode_row(rows[0]) is Some && decode_rows(rows.drop_first()) is Some && decode_row(r)
            is Some {
            let t0 = decode_row(rows[0])->Some_0;
            let ts = decode_rows(rows.drop_first())->Some_0;
            let t = decode_row(r)->Some_0;
            assert(seq![t0] + ts.push(t) =~= (seq![t0] + ts).push(t));
        }
    }
}

/// One bad record anywhere spoils the whole sequence.
proof fn lemma_decode_rows_fail(rows: Seq<Seq<Seq<char>>>, i: int)
    requires
        0 <= i < rows.len(),
        decode_row(rows[i]) is None,
    ensures
        decode_rows(rows) is None,
    decreases i,
{
    if i > 0 && decode_row(rows[0]) is Some {
        assert(rows.drop_first()[i - 1] == rows[i]);
        lemma_decode_rows_fail(rows.drop_first(), i - 1);
    }
}

/// The records written for well-formed tasks decode back to exactly
/// those tasks, provided each task's due date survives its trip through
/// the RFC 3339 text (the fact every formatting call supplies).
proof fn lemma_decode_task_rows(ts: Seq<TaskView>)
    requires
        forall|j: int| 0 <= j < ts.len() ==> (#[trigger] ts[j]).wf(),
        forall|j: int|
            0 <= j < ts.len() ==> rfc3339_parts(rfc3339_of((#[trigger] ts[j]).due)) == Some(
                parts_of(ts[j].due),
            ),
    ensures
        decode_rows(ts.map_values(|t: TaskView| task_row(t))) == Some(ts),
    decreases ts.len(),
{
    let rows = ts.map_values(|t: TaskView| task_row(t));
    if ts.len() == 0 {
        assert(rows =~= Seq::<Seq<Seq<char>>>::empty());
    } else {
        let t0 = ts[0];
        assert(rows[0] == task_row(t0));
        lemma_parse_u32_inverts_dec(t0.id);
        lemma_parts_roundtrip(t0.due);
        lemma_parse_bool_inverts_text(t0.completed);
        assert(decode_row(task_row(t0)) == Some(t0));
        assert(ts.drop_first().map_values(|t: TaskView| task_row(t)) =~= rows.drop_first());
        lemma_decode_task_rows(ts.drop_first());
        assert(seq![t0] + ts.drop_first() =~= ts);
    }
}

/// Serializes the tasks as the file's full text: the header row, then
/// one record per task, in order. The text is guaranteed to decode back
/// to exactly the given tasks (the round trip), and is never empty.
pub fn encode_tasks(tasks: &Vec<Task>) -> (r: String)
    requires
        forall|i: int| 0 <= i < tasks.deep_view().len() ==> (#[trigger] tasks.deep_view()[i]).wf(),
    ensures
        r@ == encode_spec(tasks.deep_view()),
        spec_decode(r@) == Some(tasks.deep_view()),
        r@.len() > 0,
{
    let ghost tv = tasks.deep_view();
    let mut out = String::new();
    let mut header: Vec<String> = Vec::new();
    header.push("id".to_owned());
    header.push("name".to_owned());
    header.push("due".to_owned());
    header.push("completed".to_owned());
    proof {
        assert(header.deep_view() =~= header_row());
    }
    csv_push_line(&mut out, &header);
    proof {
        assert(tv.subrange(0, 0) =~= Seq::<TaskView>::empty());
        assert(rows_of_tasks(tv.subrange(0, 0)) =~= seq![header_row()]);
        assert(seq![header_row()].drop_first() =~= Seq::<Seq<Seq<char>>>::empty());
        assert(csv_line_of(header_row()) + Seq::<char>::empty() =~= csv_line_of(header_row()));
        assert(Seq::<char>::empty() + csv_line_of(header_row()) =~= csv_line_of(header_row()));
        assert(seq![header_row()][0] == header_row());
        assert(csv_concat(seq![header_row()]) == csv_line_of(header_row()) + csv_concat(
            seq![header_row()].drop_first(),
        ));
        assert(out@ == csv_concat(rows_of_tasks(tv.subrange(0, 0))));
    }
    let mut i: usize = 0;
    while i < tasks.len()
        invariant
            i <= tasks.len(),
            tv == tasks.deep_view(),
            tasks@.len() == tv.len(),
            forall|j: int| 0 <= j < tv.len() ==> (#[trigger] tv[j]).wf(),
            out@ == csv_concat(rows_of_tasks(tv.subrange(0, i as int))),
            out@.len() > 0,
            forall|j: int|
                0 <= j < i ==> rfc3339_parts(rfc3339_of((#[trigger] tv[j]).due)) == Some(
                    parts_of(tv[j].due),
                ),
        decreases tasks.len() - i,
    {
        let t = &tasks[i];
        proof {
            assert(tv[i as int] == tasks@[i as int].deep_view());
        }
        let mut fields: Vec<String> = Vec::new();
        fields.push(u32_to_dec(t.id));
        fields.push(t.name.clone());
        fields.push(format_rfc3339(&t.due));
        fields.push(bool_to_text(t.completed));
        proof {
            assert(fields.deep_view() =~= task_row(tv[i as int]));
        }
        csv_push_line(&mut out, &fields);
        proof {
            lemma_csv_concat_push(rows_of_tasks(tv.subrange(0, i as int)), task_row(tv[i as int]));
            assert(rows_of_tasks(tv.subrange(0, i + 1)) =~= rows_of_tasks(
                tv.subrange(0, i as int),
            ).push(task_row(tv[i as int])));
        }
        i = i + 1;
    }
    proof {
        assert(tv.subrange(0, tv.len() as int) =~= tv);
    }
    // Re-read the finished text through the record layer: the reader's
    // contract on this one call is what pins down how the text splits
    // back into records, and with it the round-trip guarantee.
    let back = csv_parse(out.as_str());
    proof {
        let rows = rows_of_tasks(tv);
        assert forall|j: int| 0 <= j < rows.len() implies (#[trigger] rows[j]).len() == 4 by {
            if j == 0 {
                assert(rows[0] == header_row());
            } else {
                assert(rows[j] == task_row(tv[j - 1]));
            }
        }
        assert(uniform_arity(rows, 4));
        reveal_strlit("id");
        assert(rows[0][0] == "id"@);
        assert("id"@[0] == 'i');
        assert(bom_safe(rows));
        assert(back.deep_view() == Some(rows));
        assert(csv_rows_of(out@) == Some(rows));
        assert(rows[0] == header_row());
        assert(rows.drop_first() =~= tv.map_values(|t: TaskView| task_row(t)));
        lemma_decode_task_rows(tv);
        assert(spec_decode(out@) == Some(tv));
    }
    out
}

/// Whether some stored task already carries the identifier `id`.
pub fn contains_id(tasks: &Vec<Task>, id: u32) -> (b: bool)
    ensures
        b == has_id(tasks.deep_view(), id),
{
    let ghost tv = tasks.deep_view();
    let mut j: usize = 0;
    while j < tasks.len()
        invariant
            j <= tasks.len(),
            tv == tasks.deep_view(),
            tasks@.len() == tv.len(),
            !has_id(tv.subrange(0, j as int), id),
        decreases tasks.len() - j,
    {
        if tasks[j].id == id {
            proof {
                assert(tv[j as int] == tasks@[j as int].deep_view());
                assert((tv[j as int]).id == id);
            }
            return true;
        }
        proof {
            assert(tv[j as int] == tasks@[j as int].deep_view());
            assert(!has_id(tv.subrange(0, j + 1), id)) by {
                if has_id(tv.subrange(0, j + 1), id) {
                    let k = choose|k: int|
                        0 <= k < tv.subrange(0, j + 1).len() && (#[trigger] tv.subrange(
                            0,
                            j + 1,
                        )[k]).id == id;
                    assert(tv.subrange(0, j + 1)[k] == tv[k]);
                    if k < j {
                        assert(tv.subrange(0, j as int)[k] == tv[k]);
                        assert(has_id(tv.subrange(0, j as int), id));
                    }
                }
            }
        }
        j = j + 1;
    }
    proof {
        assert(tv.subrange(0, tv.len() as int) =~= tv);
    }
    false
}

/// The store, bound to the path of its backing file. It is a stateless
/// accessor: every operation takes the file's current text and returns
/// what follows from it.
pub struct TaskHandler {
    path: String,
}

impl TaskHandler {
    /// The path this store is bound to.
    pub closed spec fn path_spec(&self) -> Seq<char> {
        self.path@
    }

    /// Binds a store to the path of its backing file.
    pub fn new(path: String) -> (h: TaskHandler)
        ensures
            h.path_spec() == path@,
    {
        TaskHandler { path }
    }

    /// The path this store is bound to.
    pub fn path(&self) -> (p: &String)
        ensures
            p@ == self.path_spec(),
    {
        &self.path
    }

    /// Decodes the file's text into the ordered sequence of all stored
    /// tasks. Succeeds exactly on text that [`spec_decode`] accepts, and
    /// returns exactly the sequence it denotes; anything else is a
    /// `DecodeFailure`.
    pub fn read(&self, text: &str) -> (r: Result<Vec<Task>, StoreError>)
        ensures
            match r {
                Ok(ts) => spec_decode(text@) == Some(ts.deep_view()),
                Err(e) => spec_decode(text@) is None && e == StoreError::DecodeFailure,
            },
    {
        let mut out: Vec<Task> = Vec::new();
        if text.is_empty() {
            proof {
                assert(out.deep_view() =~= Seq::<TaskView>::empty());
            }
            return Ok(out);
        }
        let rows = match csv_parse(text) {
            Some(rows) => rows,
            None => {
                return Err(StoreError::DecodeFailure);
            },
        };
        let ghost rv = rows.deep_view();
        if rows.len() == 0 {
            proof {
                assert(out.deep_view() =~= Seq::<TaskView>::empty());
            }
            return Ok(out);
        }
        if rows[0].len() != 4 || !(rows[0][0] == "id".to_owned()) || !(rows[0][1]
            == "name".to_owned()) || !(rows[0][2] == "due".to_owned()) || !(rows[0][3]
            == "completed".to_owned()) {
            proof {
                assert(rv[0] == rows@[0].deep_view());
                assert(rv[0] != header_row()) by {
                    if rv[0] == header_row() {
                        assert(rv[0].len() == 4);
                        assert(rv[0][0] == "id"@ && rv[0][1] == "name"@ && rv[0][2] == "due"@
                            && rv[0][3] == "completed"@);
                        assert(rows@[0].deep_view()[0] == rows@[0]@[0]@);
                        assert(rows@[0].deep_view()[1] == rows@[0]@[1]@);
                        assert(rows@[0].deep_view()[2] == rows@[0]@[2]@);
                        assert(rows@[0].deep_view()[3] == rows@[0]@[3]@);
                    }
                }
            }
            return Err(StoreError::DecodeFailure);
        }
        proof {
            assert(rv[0] == rows@[0].deep_view());
            assert(rv[0] =~= header_row());
        }
        let mut i: usize = 1;
        while i < rows.len()
            invariant
                1 <= i <= rows.len(),
                rv == rows.deep_view(),
                rows@.len() == rv.len(),
                rv.len() > 0,
                text@.len() != 0,
                csv_rows_of(text@) == Some(rv),
                rv[0] == header_row(),
                decode_rows(rv.subrange(1, i as int)) == Some(out.deep_view()),
            decreases rows.len() - i,
        {
            let row = &rows[i];
            let ghost rowv = rv[i as int];
            proof {
                assert(rowv == rows@[i as int].deep_view());
            }
            if row.len() != 4 {
                proof {
                    assert(rv.drop_first()[i - 1] == rowv);
                    lemma_decode_rows_fail(rv.drop_first(), i - 1);
                }
                return Err(StoreError::DecodeFailure);
            }
            proof {
                assert(rowv[0] == row@[0]@ && rowv[1] == row@[1]@ && rowv[2] == row@[2]@ && rowv[3]
                    == row@[3]@);
            }
            let id_opt = parse_u32(row[0].as_str());
            let parts_opt = parse_rfc3339(row[2].as_str());
            let flag_opt = parse_bool(row[3].as_str());
            let (id, parts, completed) = match (id_opt, parts_opt, flag_opt) {
                (Some(id), Some(p), Some(b)) => (id, p, b),
                _ => {
                    proof {
                        assert(decode_row(rowv) is None);
                        assert(rv.drop_first()[i - 1] == rowv);
                        lemma_decode_rows_fail(rv.drop_first(), i - 1);
                    }
                    return Err(StoreError::DecodeFailure);
                },
            };
            let due = match timestamp_from_parts_exec(parts) {
                Some(due) => due,
                None => {
                    proof {
                        assert(decode_row(rowv) is None);
                        assert(rv.drop_first()[i - 1] == rowv);
                        lemma_decode_rows_fail(rv.drop_first(), i - 1);
                    }
                    return Err(StoreError::DecodeFailure);
                },
            };
            let name = row[1].clone();
            let task = Task { id, name, due, completed };
            proof {
                assert(decode_row(rowv) == Some(task.deep_view()));
            }
            out.push(task);
            proof {
                assert(rv.subrange(1, i + 1) =~= rv.subrange(1, i as int).push(rowv));
                lemma_decode_rows_push(rv.subrange(1, i as int), rowv);
            }
            i = i + 1;
        }
        proof {
            assert(rv.subrange(1, rv.len() as int) =~= rv.drop_first());
        }
        Ok(out)
    }

    /// Stores the candidate task: decodes the file's current text,
    /// resolves an identifier collision by replacing the candidate's
    /// identifier with the prior task count, appends the candidate, and
    /// returns the file's full new text — the canonical serialization
    /// ([`encode_spec`]) of the resulting sequence, which decodes back to
    /// exactly the old sequence plus the stored candidate, as
    /// [`plan_spec`] describes.
    pub fn write(&self, text: &str, task: Task) -> (r: Result<String, StoreError>)
        requires
            task@.wf(),
        ensures
            match r {
                Ok(new_text) => {
                    &&& spec_decode(text@) is Some
                    &&& plan_spec(spec_decode(text@)->Some_0, task@) is Ok
                    &&& new_text@ == encode_spec(plan_spec(spec_decode(text@)->Some_0, task@)->Ok_0)
                    &&& spec_decode(new_text@) == Some(
                        plan_spec(spec_decode(text@)->Some_0, task@)->Ok_0,
                    )
                },
                Err(e) => {
                    ||| (spec_decode(text@) is None && e == StoreError::DecodeFailure)
                    ||| (spec_decode(text@) is Some && plan_spec(spec_decode(text@)->Some_0, task@)
                        == Err::<Seq<TaskView>, StoreError>(e))
                },
            },
    {
        let mut tasks = match self.read(text) {
            Ok(ts) => ts,
            Err(e) => {
                return Err(e);
            },
        };
        let ghost prior = tasks.deep_view();
        proof {
            lemma_decoded_wf(text@);
        }
        let stored: Task = if contains_id(&tasks, task.id) {
            if tasks.len() > u32::MAX as usize {
                return Err(StoreError::IntegerOverflow);
            }
            Task {
                id: tasks.len() as u32,
                name: task.name,
                due: task.due,
                completed: task.completed,
            }
        } else {
            task
        };
        proof {
            assert(plan_spec(prior, task@) == Ok::<Seq<TaskView>, StoreError>(
                prior.push(stored.deep_view()),
            ));
        }
        tasks.push(stored);
        proof {
            assert(tasks.deep_view() =~= prior.push(plan_spec(prior, task@)->Ok_0.last()));
            assert(tasks.deep_view() =~= plan_spec(prior, task@)->Ok_0);
        }
        let out = encode_tasks(&tasks);
        Ok(out)
    }
}

/// Collision reassignment: writing a candidate whose identifier is
/// already present stores it, at the end, with the prior task count as
/// its identifier, and leaves the existing tasks untouched.
pub proof fn lemma_collision_reassignment(ts: Seq<TaskView>, t: TaskView)
    requires
        has_id(ts, t.id),
        ts.len() <= u32::MAX,
    ensures
        plan_spec(ts, t) is Ok,
        plan_spec(ts, t)->Ok_0.len() == ts.len() + 1,
        plan_spec(ts, t)->Ok_0.last().id == ts.len() as u32,
        plan_spec(ts, t)->Ok_0.subrange(0, ts.len() as int) == ts,
{
    assert(ts.push(
        TaskView { id: ts.len() as u32, name: t.name, due: t.due, completed: t.completed },
    ).subrange(0, ts.len() as int) =~= ts);
}

/// Idempotent read: any two reads of the same stored text denote the
/// same task sequence, because a read's result is a function of the text
/// alone.
pub proof fn lemma_read_idempotent(
    text: Seq<char>,
    first: Option<Seq<TaskView>>,
    second: Option<Seq<TaskView>>,
)
    requires
        first == spec_decode(text),
        second == spec_decode(text),
    ensures
        first == second,
{
}

/// A store whose backing file is empty holds no tasks, and reading it is
/// not a decode failure.
pub proof fn lemma_empty_text_decodes_empty()
    ensures
        spec_decode(Seq::<char>::empty()) == Some(Seq::<TaskView>::empty()),
{
}

} // verus!
