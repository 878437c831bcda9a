//! An incremental parser for server-sent events.
//!
//! Bytes come in chunks that need not align with events. An event ends with an empty
//! line; lines end with a line feed or with a carriage return and a line feed. What is
//! left of a chunk waits for the next one, up to a ceiling.
use crate::json::{self, JsonTree, UsageCounts};
use crate::text;
use bytes::{BufMut, BytesMut};
use serde_json::Value;
use vstd::prelude::*;
use vstd::slice::slice_to_vec;
use vstd::utf8::{decode_utf8, valid_utf8};

verus! {

/// The most bytes that wait for the end of their event: 1 MiB.
pub const MAX_BUFFER_BYTES: usize = 1_048_576;

/// The capacity that a parser starts with.
pub const INITIAL_CAPACITY: usize = 8192;

/// `bytes::BytesMut`, a growable buffer. `buffer_bytes` says what it holds.
#[verifier::external_type_specification]
#[verifier::external_body]
pub struct ExBytesMut(BytesMut);

/// The bytes that a `BytesMut` holds.
pub uninterp spec fn buffer_bytes(buffer: BytesMut) -> Seq<u8>;

/// `bytes::BytesMut::with_capacity`: an empty buffer.
pub assume_specification[ BytesMut::with_capacity ](capacity: usize) -> (buffer: BytesMut)
    requires
        capacity <= isize::MAX,
    ensures
        buffer_bytes(buffer) == Seq::<u8>::empty(),
;

/// `bytes::BytesMut::split_to`: takes the first `at` bytes out and leaves the others.
pub assume_specification[ BytesMut::split_to ](buffer: &mut BytesMut, at: usize) -> (head: BytesMut)
    requires
        at <= buffer_bytes(*old(buffer)).len(),
    ensures
        buffer_bytes(head) == buffer_bytes(*old(buffer)).take(at as int),
        buffer_bytes(*final(buffer)) == buffer_bytes(*old(buffer)).skip(at as int),
;

/// `bytes::BytesMut::clear`: drops all bytes.
pub assume_specification[ BytesMut::clear ](buffer: &mut BytesMut)
    ensures
        buffer_bytes(*final(buffer)) == Seq::<u8>::empty(),
;

/// `bytes::BufMut::put_slice` on a `BytesMut`: appends the bytes. The buffer may double
/// when it grows, and panics where it cannot, so the bytes stay well below the largest
/// allocation.
#[verifier::external_body]
fn append(buffer: &mut BytesMut, bytes: &[u8])
    requires
        buffer_bytes(*old(buffer)).len() + bytes@.len() <= isize::MAX / 4,
    ensures
        buffer_bytes(*final(buffer)) == buffer_bytes(*old(buffer)) + bytes@,
{
    buffer.put_slice(bytes)
}

/// `bytes::BytesMut::as_ref`: the bytes as a slice.
#[verifier::external_body]
fn slice_of(buffer: &BytesMut) -> (bytes: &[u8])
    ensures
        bytes@ == buffer_bytes(*buffer),
{
    buffer.as_ref()
}

/// `std::string::String::from_utf8`: the text that the bytes encode, if they are valid
/// UTF-8, else an error.
#[verifier::external_body]
fn text_from_utf8(bytes: Vec<u8>) -> (result: Option<String>)
    ensures
        match result {
            Some(text) => valid_utf8(bytes@) && text@ == decode_utf8(bytes@),
            None => !valid_utf8(bytes@),
        },
{
    String::from_utf8(bytes).ok()
}

/// Whether the first `end` bytes end with an empty line.
pub open spec fn ends_event(bytes: Seq<u8>, end: int) -> bool {
    &&& 2 <= end <= bytes.len()
    &&& bytes[end - 1] == 10
    &&& bytes[end - 2] == 10 || (end >= 3 && bytes[end - 2] == 13 && bytes[end - 3] == 10)
}

/// The first end of an event at `from` or later.
pub open spec fn event_end_from(bytes: Seq<u8>, from: nat) -> Option<nat>
    decreases bytes.len() + 1 - from,
{
    if from > bytes.len() {
        None
    } else if ends_event(bytes, from as int) {
        Some(from)
    } else {
        event_end_from(bytes, from + 1)
    }
}

/// Where the first event ends, if one is complete.
pub open spec fn event_end(bytes: Seq<u8>) -> Option<nat> {
    event_end_from(bytes, 0)
}

/// The text of an event, as a list that is empty if its bytes are not valid UTF-8.
pub open spec fn event_text(bytes: Seq<u8>) -> Seq<Seq<char>> {
    if valid_utf8(bytes) {
        seq![decode_utf8(bytes)]
    } else {
        Seq::empty()
    }
}

/// The complete events in `bytes`. One that is not valid UTF-8 is left out.
pub open spec fn complete_events(bytes: Seq<u8>) -> Seq<Seq<char>>
    decreases bytes.len(),
{
    proof {
        lemma_event_end(bytes, 0);
    }
    match event_end(bytes) {
        Some(end) => event_text(bytes.take(end as int)) + complete_events(bytes.skip(end as int)),
        None => Seq::empty(),
    }
}

/// What follows the last complete event in `bytes`.
pub open spec fn remainder(bytes: Seq<u8>) -> Seq<u8>
    decreases bytes.len(),
{
    proof {
        lemma_event_end(bytes, 0);
    }
    match event_end(bytes) {
        Some(end) => remainder(bytes.skip(end as int)),
        None => bytes,
    }
}

/// What a parser keeps of the bytes after the last complete event: all of them, unless
/// they exceed the ceiling.
pub open spec fn kept(bytes: Seq<u8>) -> Seq<u8> {
    if remainder(bytes).len() > MAX_BUFFER_BYTES {
        Seq::empty()
    } else {
        remainder(bytes)
    }
}

/// What waits in a parser after `chunks` were pushed.
pub open spec fn pending_after(pending: Seq<u8>, chunks: Seq<Seq<u8>>) -> Seq<u8>
    decreases chunks.len(),
{
    if chunks.len() == 0 {
        pending
    } else {
        kept(pending_after(pending, chunks.drop_last()) + chunks.last())
    }
}

/// The events that come out while `chunks` are pushed.
pub open spec fn events_after(pending: Seq<u8>, chunks: Seq<Seq<u8>>) -> Seq<Seq<char>>
    decreases chunks.len(),
{
    if chunks.len() == 0 {
        Seq::empty()
    } else {
        events_after(pending, chunks.drop_last()) + complete_events(
            pending_after(pending, chunks.drop_last()) + chunks.last(),
        )
    }
}

/// The concatenation of `chunks`.
pub open spec fn joined(chunks: Seq<Seq<u8>>) -> Seq<u8>
    decreases chunks.len(),
{
    if chunks.len() == 0 {
        Seq::empty()
    } else {
        joined(chunks.drop_last()) + chunks.last()
    }
}

/// The end that `event_end_from` finds is the first.
pub proof fn lemma_event_end(bytes: Seq<u8>, from: nat)
    ensures
        match event_end_from(bytes, from) {
            Some(end) => from <= end <= bytes.len() && ends_event(bytes, end as int) && (forall|k: int|
                from <= k < end ==> !ends_event(bytes, k)),
            None => forall|k: int| from <= k ==> !ends_event(bytes, k),
        },
    decreases bytes.len() + 1 - from,
{
    if from <= bytes.len() && !ends_event(bytes, from as int) {
        lemma_event_end(bytes, from + 1);
    }
}

/// The first end is the one that `event_end` finds.
proof fn lemma_event_end_is(bytes: Seq<u8>, end: nat)
    requires
        ends_event(bytes, end as int),
        forall|k: int| 0 <= k < end ==> !ends_event(bytes, k),
    ensures
        event_end(bytes) == Some(end),
{
    lemma_event_end(bytes, 0);
}

/// More bytes behind it do not move the end of the first event.
proof fn lemma_end_stays(bytes: Seq<u8>, more: Seq<u8>)
    requires
        event_end(bytes) is Some,
    ensures
        event_end(bytes + more) == event_end(bytes),
{
    lemma_event_end(bytes, 0);
    let end = event_end(bytes)->0;
    assert forall|k: int| 0 <= k <= end implies #[trigger] ends_event(bytes + more, k)
        == ends_event(bytes, k) by {
        assert(forall|j: int| 0 <= j < bytes.len() ==> (bytes + more)[j] == bytes[j]);
    }
    lemma_event_end_is(bytes + more, end);
}

/// Bytes that come later continue where the complete events ended.
pub proof fn lemma_continue(bytes: Seq<u8>, more: Seq<u8>)
    ensures
        complete_events(bytes + more) == complete_events(bytes) + complete_events(
            remainder(bytes) + more,
        ),
        remainder(bytes + more) == remainder(remainder(bytes) + more),
        event_end(remainder(bytes)) is None,
    decreases bytes.len(),
{
    lemma_event_end(bytes, 0);
    lemma_event_end(bytes + more, 0);
    match event_end(bytes) {
        Some(end) => {
            lemma_end_stays(bytes, more);
            let rest = bytes.skip(end as int);
            lemma_continue(rest, more);
            assert((bytes + more).take(end as int) =~= bytes.take(end as int));
            assert((bytes + more).skip(end as int) =~= rest + more);
            let text = event_text(bytes.take(end as int));
            assert(text + (complete_events(rest) + complete_events(remainder(rest) + more))
                =~= (text + complete_events(rest)) + complete_events(remainder(rest) + more));
        },
        None => {
            assert(complete_events(bytes) + complete_events(bytes + more) =~= complete_events(
                bytes + more,
            ));
        },
    }
}

/// How a stream is cut into chunks makes no difference: as long as what waits between two
/// chunks stays within the ceiling, the events that come out, and what waits in the end,
/// are those of all bytes at once.
pub proof fn law_chunk_boundaries_do_not_matter(pending: Seq<u8>, chunks: Seq<Seq<u8>>)
    requires
        event_end(pending) is None,
        forall|n: int|
            0 <= n < chunks.len() ==> remainder(pending + joined(#[trigger] chunks.take(n))).len()
                <= MAX_BUFFER_BYTES,
    ensures
        events_after(pending, chunks) == complete_events(pending + joined(chunks)),
        chunks.len() > 0 ==> pending_after(pending, chunks) == kept(pending + joined(chunks)),
        chunks.len() == 0 ==> pending_after(pending, chunks) == pending,
    decreases chunks.len(),
{
    lemma_event_end(pending, 0);
    if chunks.len() == 0 {
        assert(pending + joined(chunks) =~= pending);
    } else {
        let before = chunks.drop_last();
        assert(chunks.take(chunks.len() - 1) =~= before);
        assert forall|n: int| 0 <= n < before.len() implies remainder(
            pending + joined(#[trigger] before.take(n)),
        ).len() <= MAX_BUFFER_BYTES by {
            assert(before.take(n) =~= chunks.take(n));
        }
        law_chunk_boundaries_do_not_matter(pending, before);
        let bytes = pending + joined(before);
        lemma_event_end(bytes, 0);
        lemma_continue(bytes, chunks.last());
        assert(pending + joined(chunks) =~= bytes + chunks.last());
        if before.len() == 0 {
            assert(bytes =~= pending);
        }
        assert(pending_after(pending, before) == remainder(bytes));
    }
}

/// Whatever comes in, what waits in a parser stays within the ceiling and holds no
/// complete event.
pub proof fn law_buffer_is_bounded(pending: Seq<u8>, chunks: Seq<Seq<u8>>)
    requires
        pending.len() <= MAX_BUFFER_BYTES,
        event_end(pending) is None,
    ensures
        pending_after(pending, chunks).len() <= MAX_BUFFER_BYTES,
        event_end(pending_after(pending, chunks)) is None,
    decreases chunks.len(),
{
    if chunks.len() > 0 {
        law_buffer_is_bounded(pending, chunks.drop_last());
        let bytes = pending_after(pending, chunks.drop_last()) + chunks.last();
        lemma_continue(bytes, Seq::empty());
        lemma_event_end(Seq::<u8>::empty(), 0);
    }
}

/// An incremental parser for server-sent events.
#[derive(Debug)]
pub struct SseParser {
    buffer: BytesMut,
}

impl View for SseParser {
    type V = Seq<u8>;

    /// The bytes that wait for the end of their event.
    closed spec fn view(&self) -> Seq<u8> {
        buffer_bytes(self.buffer)
    }
}

impl Default for SseParser {
    fn default() -> (parser: SseParser)
        ensures
            parser@ == Seq::<u8>::empty(),
            parser.wf(),
    {
        SseParser::new()
    }
}

impl SseParser {
    /// What waits is within the ceiling and holds no complete event.
    pub open spec fn wf(self) -> bool {
        self@.len() <= MAX_BUFFER_BYTES && event_end(self@) is None
    }

    /// A parser in which nothing waits.
    pub fn new() -> (parser: SseParser)
        ensures
            parser@ == Seq::<u8>::empty(),
            parser.wf(),
    {
        proof {
            lemma_event_end(Seq::<u8>::empty(), 0);
        }
        SseParser { buffer: BytesMut::with_capacity(INITIAL_CAPACITY) }
    }

    /// Takes in a chunk and returns the events that are complete with it, in order.
    pub fn push(&mut self, chunk: &[u8]) -> (events: Vec<String>)
        requires
            old(self).wf(),
            chunk@.len() + MAX_BUFFER_BYTES <= isize::MAX / 4,
        ensures
            text::views(events@) == complete_events(old(self)@ + chunk@),
            final(self)@ == kept(old(self)@ + chunk@),
            final(self)@.len() <= MAX_BUFFER_BYTES,
            final(self).wf(),
    {
        let ghost all = self@ + chunk@;
        append(&mut self.buffer, chunk);
        let mut events: Vec<String> = Vec::new();
        assert(text::views(events@) + complete_events(all) =~= complete_events(all));
        loop
            invariant
                text::views(events@) + complete_events(self@) == complete_events(all),
                remainder(self@) == remainder(all),
            ensures
                event_end(self@) is None,
                text::views(events@) == complete_events(all),
                self@ == remainder(all),
            decreases self@.len(),
        {
            let ghost bytes = self@;
            proof {
                lemma_event_end(bytes, 0);
            }
            match self.find_event_end() {
                Some(end) => {
                    let event = self.buffer.split_to(end);
                    let ghost before = text::views(events@);
                    let list = slice_to_vec(slice_of(&event));
                    assert(list@ =~= bytes.take(end as int));
                    if let Some(line) = text_from_utf8(list) {
                        events.push(line);
                        assert(text::views(events@) =~= before + event_text(list@));
                    } else {
                        assert(text::views(events@) =~= before + event_text(list@));
                    }
                    assert((before + event_text(list@)) + complete_events(self@) =~= before + (
                    event_text(list@) + complete_events(self@)));
                },
                None => {
                    assert(text::views(events@) =~= complete_events(all));
                    break;
                },
            }
        }
        if slice_of(&self.buffer).len() > MAX_BUFFER_BYTES {
            self.buffer.clear();
            proof {
                lemma_event_end(Seq::<u8>::empty(), 0);
            }
        }
        events
    }

    /// Where the first event ends, if one is complete.
    fn find_event_end(&self) -> (end: Option<usize>)
        ensures
            match end {
                Some(e) => event_end(self@) == Some(e as nat),
                None => event_end(self@) is None,
            },
    {
        let bytes = slice_of(&self.buffer);
        let mut last: usize = 1;
        while last < bytes.len()
            invariant
                bytes@ == self@,
                1 <= last,
                forall|k: int| 0 <= k <= last ==> !ends_event(bytes@, k),
            decreases bytes@.len() - last,
        {
            if bytes[last] == 10 && (bytes[last - 1] == 10 || (last >= 2 && bytes[last - 1] == 13
                && bytes[last - 2] == 10)) {
                proof {
                    lemma_event_end_is(bytes@, (last + 1) as nat);
                }
                return Some(last + 1);
            }
            last += 1;
        }
        proof {
            lemma_event_end(bytes@, 0);
        }
        None
    }
}

/// The data of a line `data: ..`, unless it only marks the end of the stream.
pub open spec fn line_data(line: Seq<char>) -> Option<Seq<char>> {
    if !"data: "@.is_prefix_of(line) {
        None
    } else if line.skip("data: "@.len() as int) == "[DONE]"@ {
        None
    } else {
        Some(line.skip("data: "@.len() as int))
    }
}

/// The JSON documents in the data of `lines`, in order. Data that is not JSON is left out.
pub open spec fn documents_in(lines: Seq<Seq<char>>) -> Seq<JsonTree>
    decreases lines.len(),
{
    if lines.len() == 0 {
        Seq::empty()
    } else {
        let before = documents_in(lines.drop_last());
        match line_data(lines.last()) {
            Some(data) => match json::json_of_text(data) {
                Some(tree) => before.push(tree),
                None => before,
            },
            None => before,
        }
    }
}

/// The JSON documents that an event carries.
pub open spec fn event_documents(event: Seq<char>) -> Seq<JsonTree> {
    documents_in(text::lines_of(event))
}

/// The text in `delta.content` of a choice, if there is one.
pub open spec fn choice_content(choice: JsonTree) -> Option<Seq<char>> {
    match choice.field("delta") {
        Some(delta) => match delta.field("content") {
            Some(JsonTree::Text(content)) => Some(content),
            _ => None,
        },
        None => None,
    }
}

/// The texts that `choices` carry, in order.
pub open spec fn choice_contents(choices: Seq<JsonTree>) -> Seq<Seq<char>>
    decreases choices.len(),
{
    if choices.len() == 0 {
        Seq::empty()
    } else {
        let before = choice_contents(choices.drop_last());
        match choice_content(choices.last()) {
            Some(content) => before.push(content),
            None => before,
        }
    }
}

/// The texts in `choices[].delta.content` of a document, in order.
pub open spec fn contents_in(tree: JsonTree) -> Seq<Seq<char>> {
    match tree.field("choices") {
        Some(JsonTree::Array(choices)) => choice_contents(choices),
        _ => Seq::empty(),
    }
}

/// Whether one of the texts is not empty.
pub open spec fn any_text(texts: Seq<Seq<char>>) -> bool {
    exists|i: int| 0 <= i < texts.len() && (#[trigger] texts[i]).len() > 0
}

/// Whether one of the documents carries output of the model.
pub open spec fn any_content(documents: Seq<JsonTree>) -> bool {
    exists|i: int| 0 <= i < documents.len() && any_text(contents_in(#[trigger] documents[i]))
}

/// The usage that each document reports.
pub open spec fn usages_in(documents: Seq<JsonTree>) -> Seq<Option<UsageCounts>> {
    documents.map_values(|tree: JsonTree| json::usage_object_in(tree))
}

/// The tokens of prompt and completion in the first usage that is there.
pub open spec fn first_reported(usages: Seq<Option<UsageCounts>>) -> Option<(u64, u64)>
    decreases usages.len(),
{
    if usages.len() == 0 {
        None
    } else {
        match usages.first() {
            Some(usage) => Some(
                (json::or_zero(usage.prompt_tokens), json::or_zero(usage.completion_tokens)),
            ),
            None => first_reported(usages.drop_first()),
        }
    }
}

/// What the values hold.
pub open spec fn trees_of(values: Seq<Value>) -> Seq<JsonTree> {
    values.map_values(|value: Value| json::json_tree(value))
}

/// The data of a line `data: ..`, unless it only marks the end of the stream.
pub fn data_of_line(line: &str) -> (data: Option<String>)
    ensures
        match data {
            Some(found) => line_data(line@) == Some(found@),
            None => line_data(line@) is None,
        },
{
    match text::strip_prefix(line, "data: ") {
        Some(data) => if text::same(data.as_str(), "[DONE]") {
            None
        } else {
            Some(data)
        },
        None => None,
    }
}

/// The JSON documents that an event carries.
fn documents_of(event: &str) -> (documents: Vec<Value>)
    ensures
        trees_of(documents@) == event_documents(event@),
{
    let lines = text::lines(event);
    let ghost all = text::lines_of(event@);
    let mut documents: Vec<Value> = Vec::new();
    let mut i: usize = 0;
    assert(trees_of(documents@) =~= documents_in(all.take(0)));
    while i < lines.len()
        invariant
            i <= lines@.len(),
            text::views(lines@) == all,
            trees_of(documents@) == documents_in(all.take(i as int)),
        decreases lines@.len() - i,
    {
        let ghost before = documents@;
        assert(all.take(i + 1).drop_last() =~= all.take(i as int));
        assert(all.take(i + 1).last() == lines@[i as int]@);
        if let Some(data) = data_of_line(lines[i].as_str()) {
            if let Ok(value) = json::parse_text(data.as_str()) {
                documents.push(value);
                assert(trees_of(documents@) =~= trees_of(before).push(json::json_tree(value)));
            }
        }
        i += 1;
    }
    assert(all.take(i as int) =~= all);
    documents
}

/// The text in `delta.content` of a choice, if there is one.
fn content_of(choice: &Value) -> (content: Option<String>)
    ensures
        match content {
            Some(found) => choice_content(json::json_tree(*choice)) == Some(found@),
            None => choice_content(json::json_tree(*choice)) is None,
        },
{
    match json::get_field(choice, "delta") {
        Some(delta) => match json::get_field(delta, "content") {
            Some(content) => match content.as_str() {
                Some(found) => Some(found.to_string()),
                None => None,
            },
            None => None,
        },
        None => None,
    }
}

/// The texts in `choices[].delta.content` of a document, in order.
pub fn contents_of(document: &Value) -> (contents: Vec<String>)
    ensures
        text::views(contents@) == contents_in(json::json_tree(*document)),
{
    let mut contents: Vec<String> = Vec::new();
    assert(text::views(contents@) =~= Seq::empty());
    let choices = match json::get_field(document, "choices") {
        Some(field) => match field.as_array() {
            Some(choices) => choices,
            None => {
                return contents;
            },
        },
        None => {
            return contents;
        },
    };
    let ghost trees = json::json_tree(*document).field("choices")->0->Array_0;
    let mut i: usize = 0;
    assert(trees.take(0) =~= Seq::empty());
    while i < choices.len()
        invariant
            i <= choices@.len() == trees.len(),
            forall|k: int|
                0 <= k < trees.len() ==> json::json_tree(#[trigger] choices@[k]) == trees[k],
            text::views(contents@) == choice_contents(trees.take(i as int)),
        decreases choices@.len() - i,
    {
        let ghost before = contents@;
        assert(trees.take(i + 1).drop_last() =~= trees.take(i as int));
        if let Some(content) = content_of(&choices[i]) {
            contents.push(content);
            assert(text::views(contents@) =~= text::views(before).push(content@));
        }
        i += 1;
    }
    assert(trees.take(i as int) =~= trees);
    contents
}

/// Whether one of the texts is not empty.
pub fn has_text(contents: &Vec<String>) -> (yes: bool)
    ensures
        yes == any_text(text::views(contents@)),
{
    let mut i: usize = 0;
    while i < contents.len()
        invariant
            i <= contents@.len(),
            forall|k: int| 0 <= k < i ==> (#[trigger] text::views(contents@)[k]).len() == 0,
        decreases contents@.len() - i,
    {
        if contents[i].as_str().unicode_len() > 0 {
            assert(text::views(contents@)[i as int].len() > 0);
            return true;
        }
        i += 1;
    }
    false
}

/// The tokens of prompt and completion in the first usage that is there.
pub fn first_usage(usages: &Vec<Option<UsageCounts>>) -> (usage: Option<(u64, u64)>)
    ensures
        usage == first_reported(usages@),
{
    let mut i: usize = 0;
    assert(usages@.skip(0) =~= usages@);
    while i < usages.len()
        invariant
            i <= usages@.len(),
            first_reported(usages@) == first_reported(usages@.skip(i as int)),
        decreases usages@.len() - i,
    {
        if let Some(usage) = usages[i] {
            return Some((usage.prompt(), usage.completion()));
        }
        assert(usages@.skip(i as int).drop_first() =~= usages@.skip(i + 1));
        i += 1;
    }
    None
}

impl SseParser {
    /// Whether an event carries output of the model: a text in `choices[].delta.content`
    /// that is not empty. Events with metadata, a role or the usage only, and `[DONE]`, do
    /// not count.
    pub fn is_content_event(event: &str) -> (yes: bool)
        ensures
            yes == any_content(event_documents(event@)),
    {
        let documents = documents_of(event);
        let ghost trees = trees_of(documents@);
        let mut i: usize = 0;
        while i < documents.len()
            invariant
                i <= documents@.len(),
                trees == trees_of(documents@),
                trees == event_documents(event@),
                forall|k: int| 0 <= k < i ==> !any_text(contents_in(#[trigger] trees[k])),
            decreases documents@.len() - i,
        {
            let contents = contents_of(&documents[i]);
            assert(trees[i as int] == json::json_tree(documents@[i as int]));
            if has_text(&contents) {
                return true;
            }
            i += 1;
        }
        false
    }

    /// The tokens of prompt and completion that an event reports, from the first document
    /// with a field `usage`. A count that is missing or not a number is zero.
    pub fn extract_usage(event: &str) -> (usage: Option<(u64, u64)>)
        ensures
            usage == first_reported(usages_in(event_documents(event@))),
    {
        let documents = documents_of(event);
        let ghost trees = trees_of(documents@);
        let mut usages: Vec<Option<UsageCounts>> = Vec::new();
        let mut i: usize = 0;
        while i < documents.len()
            invariant
                i <= documents@.len(),
                trees == trees_of(documents@),
                usages@ == usages_in(trees.take(i as int)),
            decreases documents@.len() - i,
        {
            usages.push(json::usage_object_of(&documents[i]));
            i += 1;
            assert(usages@ =~= usages_in(trees.take(i as int)));
        }
        assert(trees.take(i as int) =~= trees);
        first_usage(&usages)
    }
}

/// Whether a blank line ends with the first `end` bytes: a line feed behind a line feed, with
/// or without a carriage return between them.
pub open spec fn blank_line_ends(bytes: Seq<u8>, end: int) -> bool {
    ||| 2 <= end <= bytes.len() && bytes[end - 2] == 0x0a && bytes[end - 1] == 0x0a
    ||| 3 <= end <= bytes.len() && bytes[end - 3] == 0x0a && bytes[end - 2] == 0x0d && bytes[end
        - 1] == 0x0a
}

/// The bytes up to the end of the first blank line are an event, all of them and nothing
/// else, unless they are not valid UTF-8; the others are cut in the same way. Without a blank
/// line no event is complete and everything waits.
pub proof fn law_events_end_with_the_first_blank_line(bytes: Seq<u8>, end: int)
    ensures
        blank_line_ends(bytes, end) && (forall|k: int|
            0 <= k < end ==> !#[trigger] blank_line_ends(bytes, k)) ==> {
            &&& valid_utf8(bytes.take(end)) ==> complete_events(bytes) == seq![
                decode_utf8(bytes.take(end)),
            ] + complete_events(bytes.skip(end))
            &&& !valid_utf8(bytes.take(end)) ==> complete_events(bytes) == complete_events(
                bytes.skip(end),
            )
            &&& remainder(bytes) == remainder(bytes.skip(end))
        },
        (forall|k: int| 0 <= k <= bytes.len() ==> !#[trigger] blank_line_ends(bytes, k)) ==> {
            &&& complete_events(bytes) == Seq::<Seq<char>>::empty()
            &&& remainder(bytes) == bytes
        },
{
    lemma_event_end(bytes, 0);
    assert forall|k: int| #[trigger] ends_event(bytes, k) == blank_line_ends(bytes, k) by {}
    if blank_line_ends(bytes, end) && (forall|k: int|
        0 <= k < end ==> !#[trigger] blank_line_ends(bytes, k)) {
        assert(ends_event(bytes, end));
        let found = event_end(bytes)->0 as int;
        if found < end {
            assert(ends_event(bytes, found));
        }
        assert(found == end);
        assert(Seq::<Seq<char>>::empty() + complete_events(bytes.skip(end)) =~= complete_events(
            bytes.skip(end),
        ));
    }
    if forall|k: int| 0 <= k <= bytes.len() ==> !#[trigger] blank_line_ends(bytes, k) {
        if event_end(bytes) is Some {
            assert(ends_event(bytes, event_end(bytes)->0 as int));
        }
    }
}

/// What waits is kept whole up to 1 MiB, and dropped beyond.
pub proof fn law_up_to_a_mebibyte_is_kept(bytes: Seq<u8>)
    ensures
        remainder(bytes).len() <= 1_048_576 ==> kept(bytes) == remainder(bytes),
        remainder(bytes).len() > 1_048_576 ==> kept(bytes) == Seq::<u8>::empty(),
{
}

/// The document that a line carries: the JSON behind `data: `, unless that is `[DONE]` or no
/// JSON.
pub open spec fn carried(line: Seq<char>) -> Option<JsonTree> {
    if exists|data: Seq<char>| #[trigger] ("data: "@ + data) == line && data != "[DONE]"@ {
        json::json_of_text(line.skip(6))
    } else {
        None
    }
}

/// Whether a document carries output of the model: a text that is not empty in
/// `choices[k].delta.content`.
pub open spec fn has_output(tree: JsonTree) -> bool {
    &&& tree is Object
    &&& tree->Object_0.contains_key("choices"@)
    &&& tree->Object_0["choices"@] is Array
    &&& exists|k: int|
        0 <= k < tree->Object_0["choices"@]->Array_0.len() && delta_text(
            #[trigger] tree->Object_0["choices"@]->Array_0[k],
        ).len() > 0
}

/// The text in `delta.content` of a choice, empty if there is none.
pub open spec fn delta_text(choice: JsonTree) -> Seq<char> {
    if choice is Object && choice->Object_0.contains_key("delta"@)
        && choice->Object_0["delta"@] is Object
        && choice->Object_0["delta"@]->Object_0.contains_key("content"@)
        && choice->Object_0["delta"@]->Object_0["content"@] is Text {
        choice->Object_0["delta"@]->Object_0["content"@]->Text_0
    } else {
        Seq::empty()
    }
}

/// Whether a document reports a usage: an object in its field `usage`.
pub open spec fn has_usage(tree: JsonTree) -> bool {
    tree matches JsonTree::Object(fields) && fields.contains_key("usage"@)
        && fields["usage"@] is Object
}

/// The tokens under `name` in the usage of a document, zero if there is no such number.
pub open spec fn tokens_under(tree: JsonTree, name: Seq<char>) -> u64 {
    let usage = tree->Object_0["usage"@]->Object_0;
    if usage.contains_key(name) && usage[name] is Number && usage[name]->Number_0 is Some {
        usage[name]->Number_0->0
    } else {
        0
    }
}

proof fn lemma_carried(line: Seq<char>)
    ensures
        carried(line) == match line_data(line) {
            Some(data) => json::json_of_text(data),
            None => None,
        },
{
    reveal_strlit("data: ");
    if "data: "@.is_prefix_of(line) {
        assert("data: "@ + line.skip(6) =~= line);
    }
    assert forall|data: Seq<char>| #[trigger] ("data: "@ + data) == line implies "data: "@.is_prefix_of(
        line,
    ) && line.skip(6) == data by {
        assert(line.subrange(0, 6) =~= "data: "@);
        assert(line.skip(6) =~= data);
    }
}

/// Whether one of the lines carries the document.
pub open spec fn carried_by(lines: Seq<Seq<char>>, tree: JsonTree) -> bool {
    exists|l: int| 0 <= l < lines.len() && #[trigger] carried(lines[l]) == Some(tree)
}

proof fn lemma_document(lines: Seq<Seq<char>>, tree: JsonTree)
    ensures
        documents_in(lines).contains(tree) <==> carried_by(lines, tree),
    decreases lines.len(),
{
    if lines.len() > 0 {
        let before = lines.drop_last();
        let docs = documents_in(before);
        let all = documents_in(lines);
        lemma_document(before, tree);
        lemma_carried(lines.last());
        let last = lines.len() - 1;
        assert(lines[last] == lines.last());
        if carried(lines.last()) is Some {
            assert(all == docs.push(carried(lines.last())->0));
        } else {
            assert(all == docs);
        }
        if all.contains(tree) {
            let n = choose|n: int| 0 <= n < all.len() && all[n] == tree;
            if n < docs.len() {
                assert(docs[n] == tree);
                assert(docs.contains(tree));
                let l = choose|l: int|
                    0 <= l < before.len() && #[trigger] carried(before[l]) == Some(tree);
                assert(lines[l] == before[l]);
                assert(carried(lines[l]) == Some(tree));
            } else {
                assert(carried(lines[last]) == Some(tree));
            }
            assert(carried_by(lines, tree));
        }
        if carried_by(lines, tree) {
            let l = choose|l: int|
                0 <= l < lines.len() && #[trigger] carried(lines[l]) == Some(tree);
            if l < before.len() {
                assert(lines[l] == before[l]);
                assert(carried(before[l]) == Some(tree));
                assert(carried_by(before, tree));
                let n = choose|n: int| 0 <= n < docs.len() && docs[n] == tree;
                assert(all[n] == tree);
            } else {
                assert(all[docs.len() as int] == tree);
            }
            assert(all.contains(tree));
        }
    }
}

proof fn lemma_choice_contents(choices: Seq<JsonTree>)
    ensures
        any_text(choice_contents(choices)) <==> exists|k: int|
            0 <= k < choices.len() && delta_text(#[trigger] choices[k]).len() > 0,
    decreases choices.len(),
{
    if choices.len() > 0 {
        let before = choices.drop_last();
        lemma_choice_contents(before);
        let texts = choice_contents(before);
        let all = choice_contents(choices);
        let last = choices.last();
        assert(choice_content(last) is Some ==> choice_content(last)->0 == delta_text(last));
        assert(choice_content(last) is None ==> delta_text(last).len() == 0);
        if any_text(all) {
            let n = choose|n: int| 0 <= n < all.len() && (#[trigger] all[n]).len() > 0;
            if n < texts.len() {
                assert(texts[n].len() > 0);
                let k = choose|k: int|
                    0 <= k < before.len() && delta_text(#[trigger] before[k]).len() > 0;
                assert(delta_text(choices[k]).len() > 0);
            } else {
                assert(delta_text(choices[choices.len() - 1]).len() > 0);
            }
        }
        if exists|k: int| 0 <= k < choices.len() && delta_text(#[trigger] choices[k]).len() > 0 {
            let k = choose|k: int|
                0 <= k < choices.len() && delta_text(#[trigger] choices[k]).len() > 0;
            if k < before.len() {
                assert(delta_text(before[k]).len() > 0);
                let n = choose|n: int| 0 <= n < texts.len() && (#[trigger] texts[n]).len() > 0;
                assert(all[n].len() > 0);
            } else {
                assert(all[texts.len() as int].len() > 0);
            }
        }
    }
}

proof fn lemma_output(tree: JsonTree)
    ensures
        any_text(contents_in(tree)) <==> has_output(tree),
{
    if tree is Object && tree->Object_0.contains_key("choices"@)
        && tree->Object_0["choices"@] is Array {
        lemma_choice_contents(tree->Object_0["choices"@]->Array_0);
    }
}

/// An event counts as output of the model if and only if one of its lines carries a document
/// with a text that is not empty in `choices[k].delta.content`.
pub proof fn law_output_is_recognized(event: Seq<char>)
    ensures
        any_content(event_documents(event)) <==> exists|l: int|
            0 <= l < text::lines_of(event).len() && (#[trigger] carried(
                text::lines_of(event)[l],
            ) matches Some(tree) && has_output(tree)),
{
    let lines = text::lines_of(event);
    let docs = event_documents(event);
    if any_content(docs) {
        let i = choose|i: int| 0 <= i < docs.len() && any_text(contents_in(#[trigger] docs[i]));
        lemma_output(docs[i]);
        assert(docs.contains(docs[i]));
        lemma_document(lines, docs[i]);
        let l = choose|l: int| 0 <= l < lines.len() && #[trigger] carried(lines[l]) == Some(docs[i]);
        assert(carried(lines[l]) is Some);
    }
    if exists|l: int|
        0 <= l < lines.len() && (#[trigger] carried(lines[l]) matches Some(tree) && has_output(
            tree,
        )) {
        let l = choose|l: int|
            0 <= l < lines.len() && (#[trigger] carried(lines[l]) matches Some(tree) && has_output(
                tree,
            ));
        let tree = carried(lines[l])->0;
        lemma_output(tree);
        assert(carried_by(lines, tree));
        lemma_document(lines, tree);
        let i = docs.index_of(tree);
        assert(any_text(contents_in(docs[i])));
    }
}

proof fn lemma_usages_before(lines: Seq<Seq<char>>, l: int)
    requires
        0 <= l <= lines.len(),
        forall|k: int|
            0 <= k < l ==> !(#[trigger] carried(lines[k]) matches Some(tree) && has_usage(tree)),
    ensures
        forall|i: int|
            0 <= i < documents_in(lines.take(l)).len() ==> !has_usage(
                #[trigger] documents_in(lines.take(l))[i],
            ),
{
    let head = lines.take(l);
    assert forall|i: int| 0 <= i < documents_in(head).len() implies !has_usage(
        #[trigger] documents_in(head)[i],
    ) by {
        let tree = documents_in(head)[i];
        assert(documents_in(head).contains(tree));
        lemma_document(head, tree);
        let k = choose|k: int| 0 <= k < head.len() && #[trigger] carried(head[k]) == Some(tree);
        assert(carried(lines[k]) == Some(tree));
    }
}

proof fn lemma_first_reported(usages: Seq<Option<UsageCounts>>, n: int)
    requires
        0 <= n <= usages.len(),
        forall|i: int| 0 <= i < n ==> #[trigger] usages[i] is None,
    ensures
        n == usages.len() ==> first_reported(usages) is None,
        n < usages.len() && usages[n] is Some ==> first_reported(usages) == Some(
            (
                json::or_zero(usages[n]->0.prompt_tokens),
                json::or_zero(usages[n]->0.completion_tokens),
            ),
        ),
    decreases n,
{
    if n > 0 {
        let rest = usages.drop_first();
        assert forall|i: int| 0 <= i < n - 1 implies #[trigger] rest[i] is None by {
            assert(rest[i] == usages[i + 1]);
        }
        assert(usages[0] is None);
        lemma_first_reported(rest, n - 1);
        if n < usages.len() {
            assert(rest[n - 1] == usages[n]);
        }
    }
}

proof fn lemma_documents_prefix(lines: Seq<Seq<char>>, l: int)
    requires
        0 <= l <= lines.len(),
    ensures
        documents_in(lines.take(l)).len() <= documents_in(lines).len(),
        documents_in(lines.take(l)) == documents_in(lines).take(
            documents_in(lines.take(l)).len() as int,
        ),
    decreases lines.len(),
{
    if l < lines.len() {
        let before = lines.drop_last();
        lemma_documents_prefix(before, l);
        assert(before.take(l) =~= lines.take(l));
        let n = documents_in(lines.take(l)).len() as int;
        assert(documents_in(lines).take(n) =~= documents_in(before).take(n));
    } else {
        assert(lines.take(l) =~= lines);
        assert(documents_in(lines).take(documents_in(lines).len() as int) =~= documents_in(lines));
    }
}

/// The usage of an event is that of the first line whose document has an object in its field
/// `usage`: its `prompt_tokens` and its `completion_tokens`, each zero if it is no such
/// number. Without such a line the event reports none.
pub proof fn law_usage_is_that_of_the_first_line(event: Seq<char>, l: int)
    requires
        0 <= l <= text::lines_of(event).len(),
        forall|k: int|
            0 <= k < l ==> !(#[trigger] carried(text::lines_of(event)[k]) matches Some(tree)
                && has_usage(tree)),
    ensures
        l == text::lines_of(event).len() ==> first_reported(usages_in(event_documents(event))) is None,
        l < text::lines_of(event).len() && carried(text::lines_of(event)[l]) is Some && has_usage(
            carried(text::lines_of(event)[l])->0,
        ) ==> {
            let tree = carried(text::lines_of(event)[l])->0;
            first_reported(usages_in(event_documents(event))) == Some(
                (tokens_under(tree, "prompt_tokens"@), tokens_under(tree, "completion_tokens"@)),
            )
        },
{
    let lines = text::lines_of(event);
    let docs = event_documents(event);
    lemma_usages_before(lines, l);
    lemma_documents_prefix(lines, l);
    let head = documents_in(lines.take(l));
    let n = head.len() as int;
    let usages = usages_in(docs);
    assert forall|i: int| 0 <= i < n implies #[trigger] usages[i] is None by {
        assert(docs.take(n)[i] == head[i]);
        assert(docs[i] == head[i]);
    }
    if l == lines.len() {
        assert(lines.take(l) =~= lines);
        lemma_first_reported(usages, n);
    } else if carried(lines[l]) is Some && has_usage(carried(lines[l])->0) {
        let tree = carried(lines[l])->0;
        lemma_carried(lines[l]);
        assert(lines.take(l + 1).drop_last() =~= lines.take(l));
        assert(lines.take(l + 1).last() == lines[l]);
        assert(documents_in(lines.take(l + 1)) == head.push(tree));
        lemma_documents_prefix(lines, l + 1);
        assert(docs.take(n + 1)[n] == tree);
        assert(docs[n] == tree);
        assert(usages[n] == json::usage_object_in(tree));
        lemma_first_reported(usages, n);
    }
}

} // verus!
