//! Long-running administrative work: how far it is and how it ended.
use vstd::prelude::*;
use vstd::string::*;

use crate::json;
use crate::json::{Fields, Json, JsonV, Number};
use crate::outside;
use crate::text;

verus! {

/// The state of one piece of work over many items.
#[derive(Debug)]
pub struct BatchTask {
    pub id: String,
    pub total: usize,
    pub processed: usize,
    pub ok: usize,
    pub fail: usize,
    pub status: String,
    pub warning: Option<String>,
    pub result: Option<Json>,
    pub error: Option<String>,
    /// Milliseconds since the Unix epoch.
    pub created_at: i64,
    pub cancelled: bool,
    pub last_event: Option<Json>,
}

/// A count as JSON.
pub open spec fn count_model(n: usize) -> JsonV {
    JsonV::Number(Number::Unsigned(n as u64))
}

/// An event of the kind `kind`, with the counts of a task.
pub open spec fn event_fields(kind: Seq<char>, t: BatchTask) -> Seq<(Seq<char>, JsonV)> {
    seq![
        ("type"@, JsonV::Str(kind)),
        ("task_id"@, JsonV::Str(t.id@)),
        ("total"@, count_model(t.total)),
        ("processed"@, count_model(t.processed)),
        ("ok"@, count_model(t.ok)),
        ("fail"@, count_model(t.fail)),
    ]
}

/// `fields`, and one more where there is a value for it.
pub open spec fn with_field(
    fields: Seq<(Seq<char>, JsonV)>,
    key: Seq<char>,
    value: Option<JsonV>,
) -> Seq<(Seq<char>, JsonV)> {
    match value {
        Some(v) => fields.push((key, v)),
        None => fields,
    }
}

/// The value of an optional JSON value.
pub open spec fn some_model(o: Option<Json>) -> Option<JsonV> {
    match o {
        Some(j) => Some(j@),
        None => None,
    }
}

/// The text value of an optional text.
pub open spec fn some_text(o: Option<String>) -> Option<JsonV> {
    match o {
        Some(s) => Some(JsonV::Str(s@)),
        None => None,
    }
}

impl BatchTask {
    /// Every item that was processed went well or failed.
    pub open spec fn balanced(&self) -> bool {
        self.processed == self.ok + self.fail
    }

    /// Everything but the counts, the status and what an event leaves behind is the same.
    pub open spec fn same_work(&self, other: &BatchTask) -> bool {
        &&& self.id == other.id
        &&& self.total == other.total
        &&& self.created_at == other.created_at
        &&& self.cancelled == other.cancelled
    }

    /// The counts are the same.
    pub open spec fn same_counts(&self, other: &BatchTask) -> bool {
        self.processed == other.processed && self.ok == other.ok && self.fail == other.fail
    }

    /// Work over `total` items that has just begun.
    pub fn new(total: usize) -> (r: BatchTask)
        ensures
            outside::is_uuid_text(r.id@),
            outside::clock_time(r.created_at),
            begun(r, r.id@, total, r.created_at),
    {
        let id = outside::fresh_uuid();
        let now = outside::now_millis();
        BatchTask::begin(id, total, now)
    }

    /// Work over `total` items that begins under the name `id` at `now`.
    pub fn begin(id: String, total: usize, now: i64) -> (r: BatchTask)
        ensures
            begun(r, id@, total, now),
    {
        BatchTask {
            id,
            total,
            processed: 0,
            ok: 0,
            fail: 0,
            status: String::from_str("running"),
            warning: None,
            result: None,
            error: None,
            created_at: now,
            cancelled: false,
            last_event: None,
        }
    }

    fn event(&self, kind: &str) -> (r: Fields)
        ensures
            r@ == event_fields(kind@, *self),
    {
        let mut f = Fields::new();
        f.add("type", json::text_value(kind));
        f.add("task_id", json::text_value(self.id.as_str()));
        f.add("total", json::count_value(self.total));
        f.add("processed", json::count_value(self.processed));
        f.add("ok", json::count_value(self.ok));
        f.add("fail", json::count_value(self.fail));
        proof {
            assert(f@ =~= event_fields(kind@, *self));
        }
        f
    }

    /// How the work stands.
    pub fn snapshot(&self) -> (r: Json)
        ensures
            r@ == JsonV::Object(
                seq![
                    ("task_id"@, JsonV::Str(self.id@)),
                    ("status"@, JsonV::Str(self.status@)),
                    ("total"@, count_model(self.total)),
                    ("processed"@, count_model(self.processed)),
                    ("ok"@, count_model(self.ok)),
                    ("fail"@, count_model(self.fail)),
                    ("warning"@, json::opt_text_model(text::text_opt(self.warning))),
                ],
            ),
    {
        let mut f = Fields::new();
        f.add("task_id", json::text_value(self.id.as_str()));
        f.add("status", json::text_value(self.status.as_str()));
        f.add("total", json::count_value(self.total));
        f.add("processed", json::count_value(self.processed));
        f.add("ok", json::count_value(self.ok));
        f.add("fail", json::count_value(self.fail));
        f.add("warning", json::opt_text_value(&self.warning));
        proof {
            assert(f@ =~= seq![
                ("task_id"@, JsonV::Str(self.id@)),
                ("status"@, JsonV::Str(self.status@)),
                ("total"@, count_model(self.total)),
                ("processed"@, count_model(self.processed)),
                ("ok"@, count_model(self.ok)),
                ("fail"@, count_model(self.fail)),
                ("warning"@, json::opt_text_model(text::text_opt(self.warning))),
            ]);
        }
        f.object()
    }

    /// One more item is done. Returns the event that says so.
    pub fn record(
        &mut self,
        ok: bool,
        item: Option<Json>,
        detail: Option<Json>,
        error: Option<String>,
    ) -> (event: Json)
        requires
            old(self).processed < usize::MAX,
            ok ==> old(self).ok < usize::MAX,
            !ok ==> old(self).fail < usize::MAX,
        ensures
            final(self).processed == old(self).processed + 1,
            final(self).ok == old(self).ok + if ok {
                1int
            } else {
                0
            },
            final(self).fail == old(self).fail + if ok {
                0int
            } else {
                1
            },
            old(self).balanced() ==> final(self).balanced(),
            final(self).same_work(&*old(self)),
            final(self).status == old(self).status,
            final(self).warning == old(self).warning,
            final(self).result == old(self).result,
            final(self).error == old(self).error,
            final(self).last_event == old(self).last_event,
            event@ == JsonV::Object(
                with_field(
                    with_field(
                        with_field(
                            event_fields("progress"@, *final(self)),
                            "item"@,
                            some_model(item),
                        ),
                        "detail"@,
                        some_model(detail),
                    ),
                    "error"@,
                    some_text(error),
                ),
            ),
    {
        self.processed = self.processed + 1;
        if ok {
            self.ok = self.ok + 1;
        } else {
            self.fail = self.fail + 1;
        }
        let mut f = self.event("progress");
        if let Some(j) = item {
            f.add("item", j);
        }
        if let Some(j) = detail {
            f.add("detail", j);
        }
        if let Some(e) = error {
            f.add("error", Json::Str(e));
        }
        f.object()
    }

    /// The work is done. Returns the event that says so.
    pub fn finish(&mut self, result: Json, warning: Option<String>) -> (event: Json)
        ensures
            ends_done(*old(self), *final(self), event@, result@, text::text_opt(warning)),
    {
        self.status = String::from_str("done");
        self.result = Some(result.clone());
        self.warning = text::copy_opt(&warning);
        let mut f = self.event("done");
        f.add("warning", json::opt_text_value(&warning));
        f.add("result", result);
        let event = f.object();
        self.last_event = Some(event.clone());
        event
    }

    /// The work could not be done. Returns the event that says so.
    pub fn fail_task(&mut self, error: String) -> (event: Json)
        ensures
            final(self).status@ == "error"@,
            text::text_opt(final(self).error) == Some(error@),
            final(self).result == old(self).result,
            final(self).warning == old(self).warning,
            final(self).same_work(&*old(self)),
            final(self).same_counts(&*old(self)),
            some_model(final(self).last_event) == Some(event@),
            event@ == JsonV::Object(
                event_fields("error"@, *final(self)).push(("error"@, JsonV::Str(error@))),
            ),
    {
        self.status = String::from_str("error");
        self.error = Some(error.clone());
        let mut f = self.event("error");
        f.add("error", Json::Str(error));
        let event = f.object();
        self.last_event = Some(event.clone());
        event
    }

    /// Asks for the work to be given up.
    pub fn cancel(&mut self)
        ensures
            *final(self) == (BatchTask { cancelled: true, ..*old(self) }),
    {
        self.cancelled = true;
    }

    /// The work was given up. Returns the event that says so.
    pub fn finish_cancelled(&mut self) -> (event: Json)
        ensures
            ends_cancelled(*old(self), *final(self), event@),
    {
        self.status = String::from_str("cancelled");
        let event = self.event("cancelled").object();
        self.last_event = Some(event.clone());
        event
    }

    /// All items were handed out: the work is done, unless it was asked to be
    /// given up. Returns the event that says so.
    pub fn conclude(&mut self, result: Json, warning: Option<String>) -> (event: Json)
        ensures
            if old(self).cancelled {
                ends_cancelled(*old(self), *final(self), event@)
            } else {
                ends_done(*old(self), *final(self), event@, result@, text::text_opt(warning))
            },
    {
        if self.cancelled {
            self.finish_cancelled()
        } else {
            self.finish(result, warning)
        }
    }

    /// The event with which the work ended, once it has.
    pub fn final_event(&self) -> (r: Option<Json>)
        ensures
            some_model(r) == some_model(self.last_event),
    {
        match &self.last_event {
            Some(j) => Some(j.clone()),
            None => None,
        }
    }
}

/// The work of `before` ended well in `after`, with this event.
pub open spec fn ends_done(
    before: BatchTask,
    after: BatchTask,
    event: JsonV,
    result: JsonV,
    warning: Option<Seq<char>>,
) -> bool {
    &&& after.status@ == "done"@
    &&& some_model(after.result) == Some(result)
    &&& text::text_opt(after.warning) == warning
    &&& after.error == before.error
    &&& after.same_work(&before)
    &&& after.same_counts(&before)
    &&& some_model(after.last_event) == Some(event)
    &&& event == JsonV::Object(
        event_fields("done"@, after).push(("warning"@, json::opt_text_model(warning))).push(
            ("result"@, result),
        ),
    )
}

/// The work of `before` was given up in `after`, with this event.
pub open spec fn ends_cancelled(before: BatchTask, after: BatchTask, event: JsonV) -> bool {
    &&& after.status@ == "cancelled"@
    &&& after.error == before.error
    &&& after.result == before.result
    &&& after.warning == before.warning
    &&& after.same_work(&before)
    &&& after.same_counts(&before)
    &&& some_model(after.last_event) == Some(event)
    &&& event == JsonV::Object(event_fields("cancelled"@, after))
}

/// `t` has just begun.
pub open spec fn begun(t: BatchTask, id: Seq<char>, total: usize, now: i64) -> bool {
    &&& t.id@ == id
    &&& t.total == total
    &&& t.processed == 0
    &&& t.ok == 0
    &&& t.fail == 0
    &&& t.status@ == "running"@
    &&& t.warning is None
    &&& t.result is None
    &&& t.error is None
    &&& t.created_at == now
    &&& !t.cancelled
    &&& t.last_event is None
    &&& t.balanced()
}

} // verus!
