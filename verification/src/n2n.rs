use vstd::prelude::*;

use crate::json::{
    all_keys_visible, copy_number, entries_keys_visible, entries_view, entries_well_formed,
    has_key, has_text_field, is_hidden_key, items_view, items_well_formed, json_view,
    json_well_formed, lemma_items_view_index, lemma_items_well_formed_from_each,
    lemma_strip_hidden_items_index, lemma_strip_hidden_items_visible,
    lemma_strip_hidden_items_well_formed, lemma_strip_hidden_leaves_no_hidden_key,
    lemma_strip_hidden_well_formed, parse_json, parsed_json, strip_hidden, strip_hidden_entries,
    strip_hidden_items, text_field_is, Json, JsonValue,
};
use crate::framing::{closes_object_at, closes_objects, frame_datagram, ranges_view, scan};
use crate::text::{concat, same_text};
use vstd::slice::slice_subrange;
use vstd::utf8::valid_utf8;

verus! {

/// Why the n2n side refuses a request.
#[derive(PartialEq, Eq, Structural, Debug)]
pub enum N2nError {
    /// The node answered that it does not know the command.
    NotImplemented,
    /// The command is not one that the API forwards.
    InvalidCommand,
}

impl N2nError {
    /// The text the error is reported with.
    pub fn message(&self) -> (text: String)
        ensures
            text@ == match self {
                N2nError::NotImplemented => "not implemented"@,
                N2nError::InvalidCommand => "Invalid cmd"@,
            },
    {
        match self {
            N2nError::NotImplemented => String::from_str("not implemented"),
            N2nError::InvalidCommand => String::from_str("Invalid cmd"),
        }
    }
}

/// The reply that closes the answer to a command: `_type` is `"end"`.
pub open spec fn is_end_marker(j: Json) -> bool {
    has_text_field(j, "_type"@, "end"@)
}

/// The documents read from the objects `frames` cut out of `data`, in order;
/// an object that does not read as JSON is left out.
pub open spec fn parsed_frames(data: Seq<u8>, frames: Seq<(int, int)>) -> Seq<Json>
    decreases frames.len(),
{
    if frames.len() == 0 {
        Seq::empty()
    } else {
        let rest = parsed_frames(data, frames.drop_last());
        match parsed_json(data.subrange(frames.last().0, frames.last().1)) {
            Some(j) => rest.push(j),
            None => rest,
        }
    }
}

/// Some reply among `replies` is an end marker.
pub open spec fn any_end_marker(replies: Seq<Json>) -> bool {
    exists|k: int| 0 <= k < replies.len() && is_end_marker(#[trigger] replies[k])
}

proof fn lemma_any_end_marker_push(replies: Seq<Json>, j: Json)
    ensures
        any_end_marker(replies.push(j)) == (any_end_marker(replies) || is_end_marker(j)),
{
    let pushed = replies.push(j);
    if is_end_marker(j) {
        assert(pushed[replies.len() as int] == j);
    }
    if any_end_marker(replies) {
        let k = choose|k: int| 0 <= k < replies.len() && is_end_marker(#[trigger] replies[k]);
        assert(pushed[k] == replies[k]);
    }
    if any_end_marker(pushed) {
        let k = choose|k: int| 0 <= k < pushed.len() && is_end_marker(#[trigger] pushed[k]);
        if k < replies.len() {
            assert(pushed[k] == replies[k]);
        }
    }
}

/// The replies of the node to one command, gathered datagram by datagram
/// until the end marker has arrived.
pub struct ReplyCollector {
    responses: Vec<JsonValue>,
    end_received: bool,
}

impl ReplyCollector {
    pub closed spec fn replies(&self) -> Seq<Json> {
        items_view(self.responses@)
    }

    pub closed spec fn finished(&self) -> bool {
        self.end_received
    }

    /// No reply yet, and no end marker.
    pub fn new() -> (c: ReplyCollector)
        ensures
            c.replies() == Seq::<Json>::empty(),
            !c.finished(),
    {
        ReplyCollector { responses: Vec::new(), end_received: false }
    }

    /// Records one reply; the answer is finished once an end marker has been
    /// recorded.
    pub fn accept(&mut self, reply: JsonValue)
        ensures
            final(self).replies() == old(self).replies().push(reply@),
            final(self).finished() == (old(self).finished() || is_end_marker(reply@)),
    {
        let end = text_field_is(&reply, &String::from_str("_type"), &String::from_str("end"));
        let ghost before = self.responses@;
        self.responses.push(reply);
        assert(self.responses@.drop_last() =~= before);
        if end {
            self.end_received = true;
        }
    }

    /// Records the replies a datagram carries: each object it holds that reads
    /// as JSON, in order. A datagram that is not UTF-8 text is refused and
    /// changes nothing.
    pub fn accept_datagram(&mut self, data: &[u8]) -> (ok: bool)
        requires
            data@.len() <= isize::MAX,
        ensures
            ok == valid_utf8(data@),
            ok ==> final(self).replies() == old(self).replies() + parsed_frames(
                data@,
                scan(data@).1,
            ),
            ok ==> final(self).finished() == (old(self).finished() || any_end_marker(
                parsed_frames(data@, scan(data@).1),
            )),
            !ok ==> final(self).replies() == old(self).replies() && final(self).finished() == old(
                self,
            ).finished(),
            forall|k: int|
                old(self).replies().len() <= k < final(self).replies().len() ==> json_well_formed(
                    #[trigger] final(self).replies()[k],
                ),
    {
        let frames = match frame_datagram(data) {
            Some(frames) => frames,
            None => return false,
        };
        let ghost fr = ranges_view(frames@);
        let ghost r0 = self.replies();
        let ghost f0 = self.finished();
        proof {
            assert(fr.take(0) =~= Seq::<(int, int)>::empty());
            assert(r0 + Seq::<Json>::empty() =~= r0);
        }
        let mut i: usize = 0;
        while i < frames.len()
            invariant
                i <= frames.len(),
                fr == ranges_view(frames@),
                fr == scan(data@).1,
                closes_objects(frames@, data@, data@.len() as int),
                self.replies() == r0 + parsed_frames(data@, fr.take(i as int)),
                self.finished() == (f0 || any_end_marker(parsed_frames(data@, fr.take(i as int)))),
                forall|k: int|
                    r0.len() <= k < self.replies().len() ==> json_well_formed(
                        #[trigger] self.replies()[k],
                    ),
            decreases frames.len() - i,
        {
            let (start, end) = frames[i];
            assert(closes_object_at(frames@[i as int], data@, data@.len() as int));
            let piece = slice_subrange(data, start, end);
            let ghost before = parsed_frames(data@, fr.take(i as int));
            proof {
                assert(fr.take(i + 1).drop_last() =~= fr.take(i as int));
                assert(fr.take(i + 1).last() == (start as int, end as int));
            }
            match parse_json(piece) {
                Some(v) => {
                    let ghost j = v@;
                    let ghost prev = self.replies();
                    self.accept(v);
                    proof {
                        assert forall|k: int|
                            r0.len() <= k < self.replies().len() implies json_well_formed(
                            #[trigger] self.replies()[k],
                        ) by {
                            if k < prev.len() {
                                assert(self.replies()[k] == prev[k]);
                            }
                        }
                        lemma_any_end_marker_push(before, j);
                        assert(r0 + before.push(j) =~= (r0 + before).push(j));
                    }
                },
                None => {},
            }
            i = i + 1;
        }
        proof {
            assert(fr.take(frames.len() as int) =~= fr);
        }
        true
    }

    /// Whether the end marker has been recorded.
    pub fn is_finished(&self) -> (done: bool)
        ensures
            done == self.finished(),
    {
        self.end_received
    }

    /// The replies recorded, in order of arrival.
    pub fn into_responses(self) -> (responses: Vec<JsonValue>)
        ensures
            items_view(responses@) == self.replies(),
    {
        self.responses
    }
}

/// A reply that reports an unknown command: `_type` is `"error"` and `error`
/// is `"unknowncmd"`.
pub open spec fn is_unknown_command_report(j: Json) -> bool {
    has_text_field(j, "_type"@, "error"@) && has_text_field(j, "error"@, "unknowncmd"@)
}

/// A reply that carries a data row: `_type` is `"row"`.
pub open spec fn is_row(j: Json) -> bool {
    has_text_field(j, "_type"@, "row"@)
}

/// The data rows among the replies, in order.
pub open spec fn rows_of(replies: Seq<Json>) -> Seq<Json>
    decreases replies.len(),
{
    if replies.len() == 0 {
        Seq::empty()
    } else if is_row(replies.last()) {
        rows_of(replies.drop_last()).push(replies.last())
    } else {
        rows_of(replies.drop_last())
    }
}

/// Commands whose rows are answered as a list.
pub open spec fn is_listing_command(cmd: Seq<char>) -> bool {
    ||| cmd == "edges"@
    ||| cmd == "supernodes"@
    ||| cmd == "communities"@
    ||| cmd == "packetstats"@
    ||| cmd == "info"@
}

/// `{"result": data}`.
pub open spec fn result_object(data: Json) -> Json {
    Json::Object(seq![("result"@, data)])
}

/// What the API answers for the replies of the node to the command `cmd`.
pub open spec fn n2n_reply(replies: Seq<Json>, cmd: Seq<char>) -> Result<Json, N2nError> {
    if exists|i: int| 0 <= i < replies.len() && is_unknown_command_report(#[trigger] replies[i]) {
        Err(N2nError::NotImplemented)
    } else if cmd == "timestamps"@ {
        let rows = rows_of(replies);
        Ok(
            result_object(
                if rows.len() > 0 {
                    strip_hidden(rows[0])
                } else {
                    Json::Null
                },
            ),
        )
    } else if is_listing_command(cmd) {
        Ok(result_object(Json::Array(strip_hidden_items(rows_of(replies)))))
    } else {
        Err(N2nError::InvalidCommand)
    }
}

/// The data rows are the replies whose `_type` is the string `"row"`, in the
/// order they came.
pub proof fn lemma_rows_are_row_replies(replies: Seq<Json>)
    ensures
        rows_of(replies) == replies.filter(|j: Json| has_text_field(j, "_type"@, "row"@)),
    decreases replies.len(),
{
    reveal(Seq::filter);
    if replies.len() > 0 {
        lemma_rows_are_row_replies(replies.drop_last());
    }
}

/// What the API answers for the replies of an n2n node:
/// - when a reply has `_type` `"error"` and `error` `"unknowncmd"`, the
///   command is not implemented, whatever it is;
/// - otherwise `edges`, `supernodes`, `communities`, `packetstats` and `info`
///   are answered `{"result": [rows]}`, `timestamps` is answered
///   `{"result": first row}` (or `null` without rows), with hidden keys removed
///   from the rows, and any other command is refused as invalid.
pub proof fn lemma_n2n_command_answers(replies: Seq<Json>, cmd: Seq<char>)
    ensures
        (exists|i: int|
            0 <= i < replies.len() && has_text_field(#[trigger] replies[i], "_type"@, "error"@)
                && has_text_field(replies[i], "error"@, "unknowncmd"@)) ==> n2n_reply(replies, cmd)
            == Err::<Json, N2nError>(N2nError::NotImplemented),
        (forall|i: int|
            0 <= i < replies.len() ==> !(has_text_field(#[trigger] replies[i], "_type"@, "error"@)
                && has_text_field(replies[i], "error"@, "unknowncmd"@))) ==> {
            &&& (cmd == "edges"@ || cmd == "supernodes"@ || cmd == "communities"@ || cmd
                == "packetstats"@ || cmd == "info"@) ==> n2n_reply(replies, cmd) == Ok::<
                Json,
                N2nError,
            >(Json::Object(seq![("result"@, Json::Array(strip_hidden_items(rows_of(replies))))]))
            &&& cmd == "timestamps"@ ==> n2n_reply(replies, cmd) == Ok::<Json, N2nError>(
                Json::Object(
                    seq![
                        ("result"@, if rows_of(replies).len() > 0 {
                            strip_hidden(rows_of(replies)[0])
                        } else {
                            Json::Null
                        }),
                    ],
                ),
            )
            &&& !(cmd == "edges"@ || cmd == "supernodes"@ || cmd == "communities"@ || cmd
                == "packetstats"@ || cmd == "info"@ || cmd == "timestamps"@) ==> n2n_reply(
                replies,
                cmd,
            ) == Err::<Json, N2nError>(N2nError::InvalidCommand)
        },
{
    if exists|i: int|
        0 <= i < replies.len() && has_text_field(#[trigger] replies[i], "_type"@, "error"@)
            && has_text_field(replies[i], "error"@, "unknowncmd"@) {
        let i = choose|i: int|
            0 <= i < replies.len() && has_text_field(#[trigger] replies[i], "_type"@, "error"@)
                && has_text_field(replies[i], "error"@, "unknowncmd"@);
        assert(is_unknown_command_report(replies[i]));
    } else {
        assert(!exists|i: int|
            0 <= i < replies.len() && is_unknown_command_report(#[trigger] replies[i]));
        reveal_strlit("timestamps");
        reveal_strlit("edges");
        reveal_strlit("supernodes");
        reveal_strlit("communities");
        reveal_strlit("packetstats");
        reveal_strlit("info");
        assert("supernodes"@[0] != "timestamps"@[0]);
    }
}

/// Whatever the API answers for n2n replies holds no key that starts with `_`,
/// at any depth.
pub proof fn lemma_reply_hides_underscore_keys(replies: Seq<Json>, cmd: Seq<char>)
    ensures
        n2n_reply(replies, cmd) matches Ok(answer) ==> all_keys_visible(answer),
{
    reveal_strlit("result");
    let rows = rows_of(replies);
    if rows.len() > 0 {
        lemma_strip_hidden_leaves_no_hidden_key(rows[0]);
    }
    lemma_strip_hidden_items_visible(rows);
    let data = if cmd == "timestamps"@ {
        if rows.len() > 0 {
            strip_hidden(rows[0])
        } else {
            Json::Null
        }
    } else {
        Json::Array(strip_hidden_items(rows))
    };
    let entries = seq![("result"@, data)];
    assert(entries.drop_last() =~= Seq::<(Seq<char>, Json)>::empty());
    assert(entries_keys_visible(Seq::<(Seq<char>, Json)>::empty()));
    assert(all_keys_visible(data));
    assert(!is_hidden_key("result"@));
    assert(entries_keys_visible(entries));
    assert(all_keys_visible(result_object(data)));
}

proof fn lemma_rows_well_formed(replies: Seq<Json>)
    requires
        items_well_formed(replies),
    ensures
        items_well_formed(rows_of(replies)),
    decreases replies.len(),
{
    if replies.len() > 0 {
        lemma_rows_well_formed(replies.drop_last());
        let rows = rows_of(replies);
        if is_row(replies.last()) {
            assert(rows.drop_last() =~= rows_of(replies.drop_last()));
        }
    }
}

proof fn lemma_items_well_formed_each(items: Seq<Json>)
    requires
        items_well_formed(items),
    ensures
        forall|i: int| 0 <= i < items.len() ==> json_well_formed(#[trigger] items[i]),
    decreases items.len(),
{
    if items.len() > 0 {
        lemma_items_well_formed_each(items.drop_last());
        assert forall|i: int| 0 <= i < items.len() implies json_well_formed(#[trigger] items[i]) by {
            if i < items.len() - 1 {
                assert(items[i] == items.drop_last()[i]);
            }
        }
    }
}

/// When every reply holds each key of its objects once, so does the API's
/// answer.
pub proof fn lemma_reply_well_formed(replies: Seq<Json>, cmd: Seq<char>)
    requires
        items_well_formed(replies),
    ensures
        n2n_reply(replies, cmd) matches Ok(answer) ==> json_well_formed(answer),
{
    let rows = rows_of(replies);
    lemma_rows_well_formed(replies);
    lemma_items_well_formed_each(rows);
    if rows.len() > 0 {
        assert(json_well_formed(rows[0]));
        lemma_strip_hidden_well_formed(rows[0]);
    }
    lemma_strip_hidden_items_well_formed(rows);
    let data = if cmd == "timestamps"@ {
        if rows.len() > 0 {
            strip_hidden(rows[0])
        } else {
            Json::Null
        }
    } else {
        Json::Array(strip_hidden_items(rows))
    };
    assert(json_well_formed(data));
    let entries = seq![("result"@, data)];
    assert(entries.drop_last() =~= Seq::<(Seq<char>, Json)>::empty());
    assert(entries_well_formed(Seq::<(Seq<char>, Json)>::empty()));
    assert(!has_key(Seq::<(Seq<char>, Json)>::empty(), "result"@));
    assert(entries_well_formed(entries));
    assert(json_well_formed(result_object(data)));
}

/// Client of the n2n management protocol, addressed by a UDP `host:port`.
pub struct N2nClient {
    address: String,
}

impl N2nClient {
    pub closed spec fn address_view(&self) -> Seq<char> {
        self.address@
    }

    /// A client for the management port at `address`.
    pub fn new(address: &str) -> (client: N2nClient)
        ensures
            client.address_view() == address@,
    {
        N2nClient { address: String::from_str(address) }
    }

    /// The management address this client talks to.
    pub fn address(&self) -> (a: &str)
        ensures
            a@ == self.address_view(),
    {
        self.address.as_str()
    }

    /// The line sent to the node to run `cmd`: `r 1 <cmd>`.
    pub fn command_text(&self, cmd: &str) -> (line: String)
        ensures
            line@ == "r 1 "@ + cmd@,
    {
        concat("r 1 ", cmd)
    }

    /// The answer for a command the node does not implement.
    pub fn not_implemented(&self) -> (out: Result<JsonValue, N2nError>)
        ensures
            out == Err::<JsonValue, N2nError>(N2nError::NotImplemented),
    {
        Err(N2nError::NotImplemented)
    }

    /// Turns the replies of the node to `cmd` into the API's answer: an error
    /// when a reply reports an unknown command or `cmd` is not forwarded, else
    /// `{"result": ...}` over the data rows with their hidden keys removed.
    pub fn process_response(&self, responses: Vec<JsonValue>, cmd: &str) -> (out: Result<
        JsonValue,
        N2nError,
    >)
        ensures
            match out {
                Ok(v) => n2n_reply(items_view(responses@), cmd@) == Ok::<Json, N2nError>(v@),
                Err(e) => n2n_reply(items_view(responses@), cmd@) == Err::<Json, N2nError>(e),
            },
            (forall|i: int| 0 <= i < responses@.len() ==> json_well_formed(#[trigger] responses@[i]@))
                ==> (out matches Ok(v) ==> json_well_formed(v@)),
    {
        proof {
            lemma_items_view_index(responses@);
            if forall|i: int| 0 <= i < responses@.len() ==> json_well_formed(#[trigger] responses@[i]@) {
                assert forall|i: int| 0 <= i < items_view(responses@).len() implies json_well_formed(
                    #[trigger] items_view(responses@)[i],
                ) by {
                    assert(json_well_formed(responses@[i]@));
                }
                lemma_items_well_formed_from_each(items_view(responses@));
                lemma_reply_well_formed(items_view(responses@), cmd@);
            }
        }
        let ghost rv = items_view(responses@);
        proof {
            lemma_items_view_index(responses@);
        }
        let type_key = String::from_str("_type");
        let error_key = String::from_str("error");
        let error_text = String::from_str("error");
        let unknown_text = String::from_str("unknowncmd");
        let row_text = String::from_str("row");
        let mut i: usize = 0;
        while i < responses.len()
            invariant
                i <= responses.len(),
                rv == items_view(responses@),
                rv.len() == responses.len(),
                forall|k: int| 0 <= k < responses.len() ==> #[trigger] rv[k] == responses@[k]@,
                type_key@ == "_type"@,
                error_key@ == "error"@,
                error_text@ == "error"@,
                unknown_text@ == "unknowncmd"@,
                forall|k: int| 0 <= k < i ==> !is_unknown_command_report(#[trigger] rv[k]),
            decreases responses.len() - i,
        {
            if text_field_is(&responses[i], &type_key, &error_text) && text_field_is(
                &responses[i],
                &error_key,
                &unknown_text,
            ) {
                assert(is_unknown_command_report(rv[i as int]));
                return Err(N2nError::NotImplemented);
            }
            i = i + 1;
        }
        let mut kept: Vec<JsonValue> = Vec::new();
        let mut j: usize = 0;
        while j < responses.len()
            invariant
                j <= responses.len(),
                rv == items_view(responses@),
                rv.len() == responses.len(),
                forall|k: int| 0 <= k < responses.len() ==> #[trigger] rv[k] == responses@[k]@,
                type_key@ == "_type"@,
                row_text@ == "row"@,
                items_view(kept@) == strip_hidden_items(rows_of(rv.take(j as int))),
            decreases responses.len() - j,
        {
            let ghost before = kept@;
            proof {
                assert(rv.take(j + 1).drop_last() =~= rv.take(j as int));
                assert(rv.take(j + 1).last() == rv[j as int]);
            }
            if text_field_is(&responses[j], &type_key, &row_text) {
                let filtered = self.filter_out_underscore_keys(&responses[j]);
                kept.push(filtered);
                proof {
                    assert(kept@.drop_last() =~= before);
                    let rows = rows_of(rv.take(j + 1));
                    assert(rows.drop_last() =~= rows_of(rv.take(j as int)));
                    assert(strip_hidden_items(rows).drop_last() =~= strip_hidden_items(
                        rows.drop_last(),
                    ));
                }
            }
            j = j + 1;
        }
        proof {
            assert(rv.take(responses.len() as int) =~= rv);
            lemma_items_view_index(kept@);
            lemma_strip_hidden_items_index(rows_of(rv));
        }
        let ghost rows = rows_of(rv);
        assert(!exists|k: int| 0 <= k < rv.len() && is_unknown_command_report(#[trigger] rv[k]));
        let data = if same_text(cmd, "timestamps") {
            if kept.len() > 0 {
                assert(items_view(kept@)[0] == json_view(kept@[0]));
                assert(strip_hidden_items(rows)[0] == strip_hidden(rows[0]));
                let first = kept.remove(0);
                assert(first@ == strip_hidden(rows[0]));
                first
            } else {
                assert(rows.len() == 0);
                JsonValue::Null
            }
        } else if same_text(cmd, "edges") || same_text(cmd, "supernodes") || same_text(
            cmd,
            "communities",
        ) || same_text(cmd, "packetstats") || same_text(cmd, "info") {
            assert(is_listing_command(cmd@));
            JsonValue::Array(kept)
        } else {
            return Err(N2nError::InvalidCommand);
        };
        let mut wrapped: Vec<(String, JsonValue)> = Vec::new();
        let result_key = String::from_str("result");
        let ghost data_view = data@;
        wrapped.push((result_key, data));
        proof {
            assert(wrapped@.drop_last() =~= Seq::<(String, JsonValue)>::empty());
            assert(entries_view(Seq::<(String, JsonValue)>::empty()) =~= Seq::empty());
            assert(wrapped@.last().1@ == data_view);
            assert(entries_view(wrapped@) =~= seq![("result"@, data_view)]);
        }
        Ok(JsonValue::Object(wrapped))
    }

    /// Removes, at any depth, every object entry whose key starts with `_`.
    pub fn filter_out_underscore_keys(&self, value: &JsonValue) -> (out: JsonValue)
        ensures
            out@ == strip_hidden(value@),
            json_well_formed(value@) ==> json_well_formed(out@),
        decreases value,
    {
        proof {
            if json_well_formed(value@) {
                lemma_strip_hidden_well_formed(value@);
            }
        }
        match value {
            JsonValue::Object(entries) => {
                let mut kept: Vec<(String, JsonValue)> = Vec::new();
                let mut i: usize = 0;
                while i < entries.len()
                    invariant
                        i <= entries.len(),
                        *value == JsonValue::Object(*entries),
                        entries_view(kept@) == strip_hidden_entries(
                            entries_view(entries@.take(i as int)),
                        ),
                    decreases entries.len() - i,
                {
                    let entry = &entries[i];
                    let ghost prefix = entries_view(entries@.take(i as int));
                    proof {
                        assert(entries@.take(i + 1).drop_last() =~= entries@.take(i as int));
                        let next = entries_view(entries@.take(i + 1));
                        assert(next.drop_last() =~= prefix);
                    }
                    let key = &entry.0;
                    let hidden = !key.as_str().is_empty() && key.as_str().get_char(0) == '_';
                    if !hidden {
                        proof {
                            assert(decreases_to!(*value => value->Object_0));
                            assert(decreases_to!(*entries => entries@));
                            assert(decreases_to!(entries@ => entries@[i as int]));
                            assert(decreases_to!(entries@[i as int] => entries@[i as int].1));
                        }
                        let inner = self.filter_out_underscore_keys(&entry.1);
                        let ghost before = kept@;
                        kept.push((key.clone(), inner));
                        assert(kept@.drop_last() =~= before);
                    }
                    i = i + 1;
                }
                assert(entries@.take(entries@.len() as int) =~= entries@);
                JsonValue::Object(kept)
            },
            JsonValue::Array(items) => {
                let mut out: Vec<JsonValue> = Vec::new();
                let mut i: usize = 0;
                while i < items.len()
                    invariant
                        i <= items.len(),
                        *value == JsonValue::Array(*items),
                        items_view(out@) == strip_hidden_items(items_view(items@.take(i as int))),
                    decreases items.len() - i,
                {
                    let ghost prefix = items_view(items@.take(i as int));
                    proof {
                        assert(items@.take(i + 1).drop_last() =~= items@.take(i as int));
                        let next = items_view(items@.take(i + 1));
                        assert(next.drop_last() =~= prefix);
                    }
                    proof {
                        assert(decreases_to!(*value => value->Array_0));
                        assert(decreases_to!(*items => items@));
                        assert(decreases_to!(items@ => items@[i as int]));
                    }
                    let inner = self.filter_out_underscore_keys(&items[i]);
                    let ghost before = out@;
                    out.push(inner);
                    assert(out@.drop_last() =~= before);
                    i = i + 1;
                }
                assert(items@.take(items@.len() as int) =~= items@);
                JsonValue::Array(out)
            },
            JsonValue::Null => JsonValue::Null,
            JsonValue::Bool(b) => JsonValue::Bool(*b),
            JsonValue::Number(n) => JsonValue::Number(copy_number(n)),
            JsonValue::Str(s) => JsonValue::Str(s.clone()),
        }
    }
}

} // verus!
