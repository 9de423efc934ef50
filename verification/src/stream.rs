//! Reading a streamed chat answer (server-sent events): received bytes are added to a
//! buffer, and each complete line that carries data yields its payload.
use vstd::prelude::*;
use vstd::string::*;
use vstd::utf8::{valid_utf8, decode_utf8};
use crate::text::{chars_of, has_prefix, matches_at, string_from_range};
use crate::context::{first_newline, lemma_first_newline_range};
use crate::json::{JsonValue, member, get};

verus! {

/// The text of received bytes when they are valid UTF-8 (`String::from_utf8`).
#[verifier::external_body]
pub(crate) fn decode_bytes(bytes: &[u8]) -> (r: Option<String>)
    ensures
        r is Some <==> valid_utf8(bytes@),
        r matches Some(s) ==> s@ == decode_utf8(bytes@),
{
    String::from_utf8(bytes.to_vec()).ok()
}

/// The complete lines of a buffer (each with its newline) and what follows the last one.
pub open spec fn complete_lines(b: Seq<char>) -> (Seq<Seq<char>>, Seq<char>)
    decreases b.len(),
{
    let k = first_newline(b);
    proof {
        lemma_first_newline_range(b);
    }
    if k >= b.len() {
        (Seq::empty(), b)
    } else {
        let (ls, rest) = complete_lines(b.skip(k + 1));
        (seq![b.take(k + 1)] + ls, rest)
    }
}

/// A line without its leading `data: ` prefixes (`trim_start_matches("data: ")`).
pub open spec fn strip_data(l: Seq<char>) -> Seq<char>
    decreases l.len(),
{
    if l.len() >= 6 && has_prefix(l, "data: "@) {
        strip_data(l.skip(6))
    } else {
        l
    }
}

/// The payload of a line: lines starting with `data: ` carry the text after the prefixes,
/// unless that text is exactly `[DONE]`.
pub open spec fn payload_of(l: Seq<char>) -> Option<Seq<char>> {
    if has_prefix(l, "data: "@) && strip_data(l) != "[DONE]"@ {
        Some(strip_data(l))
    } else {
        None
    }
}

/// The payloads of a list of lines, in order.
pub open spec fn payloads(lines: Seq<Seq<char>>) -> Seq<Seq<char>>
    decreases lines.len(),
{
    if lines.len() == 0 {
        Seq::empty()
    } else {
        match payload_of(lines[0]) {
            Some(d) => seq![d] + payloads(lines.skip(1)),
            None => payloads(lines.skip(1)),
        }
    }
}

proof fn lemma_first_newline_at(s: Seq<char>, k: int)
    requires
        0 <= k <= s.len(),
        forall|j: int| 0 <= j < k ==> s[j] != '\n',
        k < s.len() ==> s[k] == '\n',
    ensures
        first_newline(s) == k,
    decreases k,
{
    if k > 0 {
        assert forall|j: int| 0 <= j < k - 1 implies s.skip(1)[j] != '\n' by {
            assert(s.skip(1)[j] == s[j + 1]);
        }
        if k < s.len() {
            assert(s.skip(1)[k - 1] == s[k]);
        }
        lemma_first_newline_at(s.skip(1), k - 1);
    }
}

/// The payload of the line `v[from..to]`.
fn line_payload(v: &[char], from: usize, to: usize, prefix: &[char], done: &[char]) -> (r: Option<
    String,
>)
    requires
        from <= to <= v.len(),
        prefix@ == "data: "@,
        done@ == "[DONE]"@,
    ensures
        match (r, payload_of(v@.subrange(from as int, to as int))) {
            (Some(a), Some(b)) => a@ == b,
            (None, None) => true,
            _ => false,
        },
{
    let ghost line = v@.subrange(from as int, to as int);
    proof {
        reveal_strlit("data: ");
    }
    if !(to - from >= 6 && matches_at(v, prefix, from)) {
        assert(!has_prefix(line, "data: "@)) by {
            if to - from >= 6 {
                assert(line.take(6) =~= v@.subrange(from as int, from + 6));
            }
        }
        return None;
    }
    assert(has_prefix(line, "data: "@)) by {
        assert(line.take(6) =~= v@.subrange(from as int, from + 6));
    }
    let mut i = from;
    while i <= to && to - i >= 6 && matches_at(v, prefix, i)
        invariant
            from <= i <= to <= v.len(),
            prefix@ == "data: "@,
            prefix@.len() == 6,
            line == v@.subrange(from as int, to as int),
            strip_data(line) == strip_data(v@.subrange(i as int, to as int)),
        decreases to - i,
    {
        proof {
            let cur = v@.subrange(i as int, to as int);
            assert(cur.take(6) =~= v@.subrange(i as int, i + 6));
            assert(cur.skip(6) =~= v@.subrange(i + 6, to as int));
        }
        i = i + 6;
    }
    proof {
        let cur = v@.subrange(i as int, to as int);
        if cur.len() >= 6 {
            assert(cur.take(6) =~= v@.subrange(i as int, i + 6));
        }
    }
    let data = string_from_range(v, i, to);
    if crate::text::str_eq(data.as_str(), "[DONE]") {
        return None;
    }
    Some(data)
}

/// Adds received bytes to the buffer and takes out its complete lines, returning their
/// payloads. Bytes that are not valid UTF-8 are dropped and change nothing.
pub fn feed_stream(buffer: &mut String, chunk: &[u8]) -> (r: Vec<String>)
    ensures
        !valid_utf8(chunk@) ==> final(buffer)@ == old(buffer)@ && r@.len() == 0,
        valid_utf8(chunk@) ==> ({
            let (lines, rest) = complete_lines(old(buffer)@ + decode_utf8(chunk@));
            &&& final(buffer)@ == rest
            &&& r@.map_values(|s: String| s@) == payloads(lines)
        }),
{
    let text = match decode_bytes(chunk) {
        Some(t) => t,
        None => {
            return Vec::new();
        },
    };
    let ghost ob = buffer@;
    assert(ob == old(buffer)@);
    let ghost all = buffer@ + text@;
    buffer.append(text.as_str());
    let v = chars_of(buffer.as_str());
    let prefix = chars_of("data: ");
    let done = chars_of("[DONE]");
    let n = v.len();
    let mut out: Vec<String> = Vec::new();
    let mut start: usize = 0;
    let ghost mut seen: Seq<Seq<char>> = Seq::empty();
    assert(v@.skip(0) =~= v@);
    loop
        invariant
            start <= n == v@.len(),
            v@ == all,
            valid_utf8(chunk@),
            ob == old(buffer)@,
            all == ob + decode_utf8(chunk@),
            prefix@ == "data: "@,
            done@ == "[DONE]"@,
            complete_lines(all).0 == seen + complete_lines(v@.skip(start as int)).0,
            complete_lines(all).1 == complete_lines(v@.skip(start as int)).1,
            out@.map_values(|s: String| s@) == payloads(seen),
        decreases n - start,
    {
        let mut k = start;
        while k < n && v[k] != '\n'
            invariant
                start <= k <= n == v@.len(),
                forall|j: int| start <= j < k ==> v@[j] != '\n',
            decreases n - k,
        {
            k = k + 1;
        }
        let ghost rest = v@.skip(start as int);
        proof {
            lemma_first_newline_at(rest, k - start);
        }
        if k == n {
            assert(complete_lines(rest) == (Seq::<Seq<char>>::empty(), rest));
            let tail = string_from_range(v.as_slice(), start, n);
            assert(v@.subrange(start as int, n as int) =~= rest);
            *buffer = tail;
            proof {
                assert(seen + Seq::<Seq<char>>::empty() =~= seen);
                assert(complete_lines(all).0 == seen);
            }
            return out;
        }
        let ghost line = v@.subrange(start as int, k + 1);
        proof {
            assert(rest.take(k - start + 1) =~= line);
            assert(rest.skip(k - start + 1) =~= v@.skip(k + 1));
            assert(complete_lines(rest).0 == seq![line] + complete_lines(v@.skip(k + 1)).0);
        }
        let p = line_payload(v.as_slice(), start, k + 1, prefix.as_slice(), done.as_slice());
        proof {
            lemma_payloads_push(seen, line);
        }
        let ghost before = out@;
        match p {
            Some(d) => {
                let ghost dv = d@;
                out.push(d);
                assert(out@.map_values(|s: String| s@) =~= before.map_values(|s: String| s@).push(
                    dv,
                ));
            },
            None => {},
        }
        proof {
            assert(seen.push(line) + complete_lines(v@.skip(k + 1)).0 =~= seen + (seq![line]
                + complete_lines(v@.skip(k + 1)).0));
            seen = seen.push(line);
        }
        start = k + 1;
    }
}

proof fn lemma_payloads_push(s: Seq<Seq<char>>, l: Seq<char>)
    ensures
        payload_of(l) is Some ==> payloads(s.push(l)) == payloads(s).push(payload_of(l)->0),
        payload_of(l) is None ==> payloads(s.push(l)) == payloads(s),
    decreases s.len(),
{
    let t = s.push(l);
    if s.len() == 0 {
        assert(t.skip(1) =~= Seq::<Seq<char>>::empty());
        assert(t[0] == l);
        assert(payloads(s) == Seq::<Seq<char>>::empty());
        assert(payloads(t.skip(1)) == Seq::<Seq<char>>::empty());
        if payload_of(l) is Some {
            assert(payloads(t) == seq![payload_of(l)->0] + payloads(t.skip(1)));
            assert(seq![payload_of(l)->0] + Seq::<Seq<char>>::empty() =~= Seq::<Seq<char>>::empty().push(
                payload_of(l)->0,
            ));
        }
    } else {
        assert(t.skip(1) =~= s.skip(1).push(l));
        lemma_payloads_push(s.skip(1), l);
        assert(t[0] == s[0]);
        if payload_of(s[0]) is Some {
            let e = payload_of(s[0])->0;
            assert(payloads(t) == seq![e] + payloads(t.skip(1)));
            assert(payloads(s) == seq![e] + payloads(s.skip(1)));
            if payload_of(l) is Some {
                assert(seq![e] + payloads(s.skip(1)).push(payload_of(l)->0) =~= (seq![e] + payloads(
                    s.skip(1),
                )).push(payload_of(l)->0));
            }
        } else {
            assert(payloads(t) == payloads(t.skip(1)));
            assert(payloads(s) == payloads(s.skip(1)));
        }
    }
}

proof fn lemma_first_newline_append(x: Seq<char>, y: Seq<char>)
    requires
        first_newline(x) < x.len(),
    ensures
        first_newline(x + y) == first_newline(x),
    decreases x.len(),
{
    if x[0] != '\n' {
        assert((x + y).skip(1) =~= x.skip(1) + y);
        lemma_first_newline_append(x.skip(1), y);
    }
}

/// Cutting a buffer in two and taking the complete lines of the first part, then of what
/// is left of it followed by the second part, gives the lines of the whole buffer and
/// leaves the same rest.
pub proof fn lemma_complete_lines_append(x: Seq<char>, y: Seq<char>)
    ensures
        complete_lines(x + y).0 == complete_lines(x).0 + complete_lines(complete_lines(x).1 + y).0,
        complete_lines(x + y).1 == complete_lines(complete_lines(x).1 + y).1,
    decreases x.len(),
{
    lemma_first_newline_range(x);
    let k = first_newline(x);
    if k >= x.len() {
        assert(complete_lines(x) == (Seq::<Seq<char>>::empty(), x));
        assert(Seq::<Seq<char>>::empty() + complete_lines(x + y).0 =~= complete_lines(x + y).0);
    } else {
        lemma_first_newline_append(x, y);
        assert((x + y).take(k + 1) =~= x.take(k + 1));
        assert((x + y).skip(k + 1) =~= x.skip(k + 1) + y);
        lemma_complete_lines_append(x.skip(k + 1), y);
        let (ls, rest) = complete_lines(x.skip(k + 1));
        assert(seq![x.take(k + 1)] + ls + complete_lines(rest + y).0 =~= seq![x.take(k + 1)] + (ls
            + complete_lines(rest + y).0));
    }
}

/// The payloads of two lists of lines are those of the first followed by those of the
/// second.
pub proof fn lemma_payloads_append(a: Seq<Seq<char>>, b: Seq<Seq<char>>)
    ensures
        payloads(a + b) == payloads(a) + payloads(b),
    decreases a.len(),
{
    if a.len() == 0 {
        assert(a + b =~= b);
        assert(Seq::<Seq<char>>::empty() + payloads(b) =~= payloads(b));
    } else {
        assert((a + b).skip(1) =~= a.skip(1) + b);
        assert((a + b)[0] == a[0]);
        lemma_payloads_append(a.skip(1), b);
        match payload_of(a[0]) {
            Some(d) => {
                assert(seq![d] + payloads(a.skip(1)) + payloads(b) =~= seq![d] + (payloads(a.skip(1))
                    + payloads(b)));
            },
            None => {},
        }
    }
}

/// What feeding text to a buffer yields: the payloads of its complete lines, and the
/// buffer left (see [`feed_stream`]).
pub open spec fn fed(buffer: Seq<char>, text: Seq<char>) -> (Seq<Seq<char>>, Seq<char>) {
    (payloads(complete_lines(buffer + text).0), complete_lines(buffer + text).1)
}

/// How the received text is cut into chunks does not change what is read: feeding two
/// pieces one after the other yields the payloads of feeding them at once, in the same
/// order, and leaves the same buffer.
pub proof fn lemma_feed_split(buffer: Seq<char>, first: Seq<char>, second: Seq<char>)
    ensures
        fed(buffer, first + second).0 == fed(buffer, first).0 + fed(fed(buffer, first).1, second).0,
        fed(buffer, first + second).1 == fed(fed(buffer, first).1, second).1,
{
    assert(buffer + (first + second) =~= (buffer + first) + second);
    lemma_complete_lines_append(buffer + first, second);
    let (l1, r1) = complete_lines(buffer + first);
    lemma_payloads_append(l1, complete_lines(r1 + second).0);
}

// ── Text deltas of streamed chunks ──────────────────────────────────

/// A field of a value read as a one-field record: an object gives its member (nothing
/// when missing), a one-item array its item; anything else cannot be read as a record.
pub open spec fn single_field(v: JsonValue, key: Seq<char>) -> Option<Option<JsonValue>> {
    match v {
        JsonValue::Object(entries) => Some(member(entries@, key)),
        JsonValue::Array(items) => if items@.len() == 1 {
            Some(Some(items@[0]))
        } else {
            None
        },
        _ => None,
    }
}

/// The field is missing or null.
pub open spec fn absent(f: Option<JsonValue>) -> bool {
    f is None || f == Some(JsonValue::Null)
}

/// The text a choice of a chunk carries: `delta.content`. The outer `None` says the
/// choice is not of the chunk's shape (a delta that is not a record, a content that is
/// not a string); `Some(None)` says it carries no text.
pub open spec fn choice_text(choice: JsonValue) -> Option<Option<Seq<char>>> {
    match single_field(choice, "delta"@) {
        None => None,
        Some(d) => if absent(d) {
            Some(None)
        } else {
            match single_field(d.unwrap(), "content"@) {
                None => None,
                Some(c) => if absent(c) {
                    Some(None)
                } else {
                    match c.unwrap() {
                        JsonValue::Str(t) => Some(Some(t@)),
                        _ => None,
                    }
                },
            }
        },
    }
}

/// The texts of a chunk's choices, in order; nothing when one choice is not of the
/// chunk's shape.
pub open spec fn choices_texts(items: Seq<JsonValue>) -> Option<Seq<Seq<char>>>
    decreases items.len(),
{
    if items.len() == 0 {
        Some(Seq::empty())
    } else {
        match (choices_texts(items.drop_last()), choice_text(items.last())) {
            (Some(acc), Some(t)) => Some(
                match t {
                    Some(x) => acc.push(x),
                    None => acc,
                },
            ),
            _ => None,
        }
    }
}

/// The text deltas of a streamed chunk `{"choices": [{"delta": {"content": ..}}, ..]}`:
/// no choices (missing or null) give none; a document of another shape gives nothing.
pub open spec fn chunk_deltas(doc: JsonValue) -> Option<Seq<Seq<char>>> {
    match single_field(doc, "choices"@) {
        None => None,
        Some(c) => if absent(c) {
            Some(Seq::empty())
        } else {
            match c.unwrap() {
                JsonValue::Array(items) => choices_texts(items@),
                _ => None,
            }
        },
    }
}

/// The deltas of a payload's document; none when the payload was not JSON or not a chunk.
pub open spec fn doc_deltas(doc: Option<JsonValue>) -> Seq<Seq<char>> {
    match doc {
        Some(d) => match chunk_deltas(d) {
            Some(ds) => ds,
            None => Seq::empty(),
        },
        None => Seq::empty(),
    }
}

/// The deltas of a run of payload documents, in order.
pub open spec fn docs_deltas(docs: Seq<Option<JsonValue>>) -> Seq<Seq<char>>
    decreases docs.len(),
{
    if docs.len() == 0 {
        Seq::empty()
    } else {
        docs_deltas(docs.drop_last()) + doc_deltas(docs.last())
    }
}

/// Texts put one after the other.
pub open spec fn concat(parts: Seq<Seq<char>>) -> Seq<char>
    decreases parts.len(),
{
    if parts.len() == 0 {
        Seq::empty()
    } else {
        concat(parts.drop_last()) + parts.last()
    }
}

/// A field of a one-field record (see [`single_field`]).
fn record_field<'a>(v: &'a JsonValue, key: &str) -> (r: Option<Option<&'a JsonValue>>)
    ensures
        match r {
            None => single_field(*v, key@) is None,
            Some(None) => single_field(*v, key@) == Some(None::<JsonValue>),
            Some(Some(x)) => single_field(*v, key@) == Some(Some(*x)),
        },
{
    match v {
        JsonValue::Object(_) => match get(v, key) {
            Some(x) => Some(Some(x)),
            None => Some(None),
        },
        JsonValue::Array(items) => {
            if items.len() == 1 {
                Some(Some(&items[0]))
            } else {
                None
            }
        },
        _ => None,
    }
}

/// Whether a field is missing or null.
fn is_absent(f: Option<&JsonValue>) -> (b: bool)
    ensures
        b == absent(
            match f {
                Some(x) => Some(*x),
                None => None,
            },
        ),
{
    match f {
        None => true,
        Some(JsonValue::Null) => true,
        Some(_) => false,
    }
}

/// The text of one choice (see [`choice_text`]).
fn text_of_choice(choice: &JsonValue) -> (r: Option<Option<String>>)
    ensures
        match r {
            None => choice_text(*choice) is None,
            Some(None) => choice_text(*choice) == Some(None::<Seq<char>>),
            Some(Some(t)) => choice_text(*choice) == Some(Some(t@)),
        },
{
    match record_field(choice, "delta") {
        None => None,
        Some(d) => {
            if is_absent(d) {
                return Some(None);
            }
            let dv = d.unwrap();
            match record_field(dv, "content") {
                None => None,
                Some(c) => {
                    if is_absent(c) {
                        return Some(None);
                    }
                    match c.unwrap() {
                        JsonValue::Str(t) => Some(Some(t.clone())),
                        _ => None,
                    }
                },
            }
        },
    }
}

/// The text deltas of a streamed chunk (see [`chunk_deltas`]).
pub fn deltas_of_chunk(doc: &JsonValue) -> (r: Option<Vec<String>>)
    ensures
        match r {
            None => chunk_deltas(*doc) is None,
            Some(v) => chunk_deltas(*doc) == Some(v@.map_values(|s: String| s@)),
        },
{
    match record_field(doc, "choices") {
        None => None,
        Some(c) => {
            if is_absent(c) {
                let r: Vec<String> = Vec::new();
                assert(r@.map_values(|s: String| s@) =~= Seq::<Seq<char>>::empty());
                return Some(r);
            }
            match c.unwrap() {
                JsonValue::Array(items) => {
                    let mut r: Vec<String> = Vec::new();
                    let mut ok = true;
                    let mut i: usize = 0;
                    while i < items.len()
                        invariant
                            i <= items@.len(),
                            choices_texts(items@.take(i as int)) == (if ok {
                                Some(r@.map_values(|s: String| s@))
                            } else {
                                None
                            }),
                        decreases items.len() - i,
                    {
                        assert(items@.take(i + 1).drop_last() =~= items@.take(i as int));
                        assert(items@.take(i + 1).last() == items@[i as int]);
                        if ok {
                            match text_of_choice(&items[i]) {
                                None => {
                                    ok = false;
                                },
                                Some(None) => {},
                                Some(Some(t)) => {
                                    let ghost before = r@;
                                    r.push(t);
                                    assert(r@.map_values(|s: String| s@) =~= before.map_values(
                                        |s: String| s@,
                                    ).push(r@.last()@));
                                },
                            }
                        }
                        i = i + 1;
                    }
                    assert(items@.take(i as int) =~= items@);
                    if ok {
                        Some(r)
                    } else {
                        None
                    }
                },
                _ => None,
            }
        },
    }
}

/// Reads the documents of a run of payloads (`None` for one that was not JSON): returns
/// the text deltas they carry, in order, and adds them to the answer so far.
pub fn collect_deltas(docs: &Vec<Option<JsonValue>>, content: &mut String) -> (r: Vec<String>)
    ensures
        r@.map_values(|s: String| s@) == docs_deltas(docs@),
        final(content)@ == old(content)@ + concat(docs_deltas(docs@)),
{
    let mut r: Vec<String> = Vec::new();
    let mut i: usize = 0;
    while i < docs.len()
        invariant
            i <= docs@.len(),
            r@.map_values(|s: String| s@) == docs_deltas(docs@.take(i as int)),
            content@ == old(content)@ + concat(docs_deltas(docs@.take(i as int))),
        decreases docs.len() - i,
    {
        assert(docs@.take(i + 1).drop_last() =~= docs@.take(i as int));
        assert(docs@.take(i + 1).last() == docs@[i as int]);
        let ghost prev = r@.map_values(|s: String| s@);
        let ghost cprev = content@;
        let ds: Vec<String> = match &docs[i] {
            Some(d) => match deltas_of_chunk(d) {
                Some(v) => v,
                None => Vec::new(),
            },
            None => Vec::new(),
        };
        let ghost dv = ds@.map_values(|s: String| s@);
        assert(dv =~= doc_deltas(docs@[i as int]));
        let mut j: usize = 0;
        while j < ds.len()
            invariant
                j <= ds@.len(),
                dv == ds@.map_values(|s: String| s@),
                r@.map_values(|s: String| s@) == prev + dv.take(j as int),
                content@ == cprev + concat(dv.take(j as int)),
            decreases ds.len() - j,
        {
            assert(dv.take(j + 1).drop_last() =~= dv.take(j as int));
            assert(dv.take(j + 1).last() == ds@[j as int]@);
            content.append(ds[j].as_str());
            let ghost before = r@;
            r.push(ds[j].clone());
            assert(r@.map_values(|s: String| s@) =~= before.map_values(|s: String| s@).push(ds@[j as int]@));
            assert(prev + dv.take(j + 1) =~= (prev + dv.take(j as int)).push(ds@[j as int]@));
            j = j + 1;
        }
        assert(dv.take(j as int) =~= dv);
        proof {
            lemma_concat_append(docs_deltas(docs@.take(i as int)), dv);
        }
        i = i + 1;
    }
    assert(docs@.take(i as int) =~= docs@);
    r
}

proof fn lemma_concat_append(a: Seq<Seq<char>>, b: Seq<Seq<char>>)
    ensures
        concat(a + b) == concat(a) + concat(b),
    decreases b.len(),
{
    if b.len() == 0 {
        assert(a + b =~= a);
        assert(concat(a) + concat(b) =~= concat(a));
    } else {
        lemma_concat_append(a, b.drop_last());
        assert((a + b).drop_last() =~= a + b.drop_last());
        assert((a + b).last() == b.last());
        assert(concat(a) + concat(b) =~= concat(a) + concat(b.drop_last()) + b.last());
    }
}

/// Reading the payloads in runs gives what reading them at once gives: the deltas of two
/// runs one after the other are the deltas of the whole, in order, and so is the answer
/// they build.
pub proof fn lemma_deltas_split(a: Seq<Option<JsonValue>>, b: Seq<Option<JsonValue>>)
    ensures
        docs_deltas(a + b) == docs_deltas(a) + docs_deltas(b),
        concat(docs_deltas(a + b)) == concat(docs_deltas(a)) + concat(docs_deltas(b)),
    decreases b.len(),
{
    if b.len() == 0 {
        assert(a + b =~= a);
        assert(docs_deltas(a) + docs_deltas(b) =~= docs_deltas(a));
    } else {
        lemma_deltas_split(a, b.drop_last());
        assert((a + b).drop_last() =~= a + b.drop_last());
        assert((a + b).last() == b.last());
        assert(docs_deltas(a + b) =~= docs_deltas(a) + docs_deltas(b));
    }
    lemma_concat_append(docs_deltas(a), docs_deltas(b));
}

} // verus!
