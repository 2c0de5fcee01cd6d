//! Incremental frame extractor.
//!
//! The device writes JSON values back to back on the wire, with no length
//! prefix and no delimiter; runs of null bytes may pad the gaps and malformed
//! fragments may appear anywhere. The extractor consumes an accumulating byte
//! buffer and emits every complete JSON value it finds, in order, as its
//! compact re-serialized text. A truncated trailing value is left in the
//! buffer for the next round; malformed bytes are skipped one byte past the
//! reported trouble spot and are never emitted.

use vstd::prelude::*;

verus! {

/// What one attempt to take a single JSON value off the front of the
/// unconsumed bytes can come to.
pub enum StepOutcome {
    /// A structurally complete value: `consumed` bytes of input were used
    /// (leading whitespace included) and `text` is the value re-serialized
    /// in compact form.
    Complete { consumed: usize, text: String },
    /// The bytes end before one value is structurally complete; nothing may
    /// be consumed until more bytes arrive.
    Incomplete,
    /// The bytes cannot begin or continue a JSON value; `offset` is where
    /// the parser gave up, counted from the start of the attempt.
    Malformed { offset: usize },
    /// Nothing is left but whitespace; `consumed` bytes carry no value.
    Drained { consumed: usize },
}

/// The outcome of one parse attempt on a given byte sequence. The parse is a
/// pure function of the bytes, so the outcome bears a name that contracts can
/// share; what the name denotes on particular bytes is fixed only by the
/// parser itself.
pub uninterp spec fn json_step(s: Seq<u8>) -> StepOutcome;

/// Relies on serde_json: `Deserializer::from_slice(..).into_iter::<Value>()`
/// with `next` and `byte_offset` to take one JSON value off the front of
/// `buf`, and `to_string` for the compact re-serialization. `next` returns
/// `None` only once the whole rest was consumed as whitespace, an `is_eof`
/// error means the bytes ran out mid-value, and `byte_offset` never passes
/// the slice's end; on a non-eof error it stops at a byte that exists.
#[verifier::external_body]
fn json_front(buf: &[u8]) -> (r: StepOutcome)
    ensures
        r == json_step(buf@),
        (r matches StepOutcome::Complete { consumed, .. } ==> 1 <= consumed <= buf@.len()),
        (r matches StepOutcome::Malformed { offset } ==> offset < buf@.len()),
        (r matches StepOutcome::Drained { consumed } ==> consumed == buf@.len()),
{
    let mut iter = serde_json::Deserializer::from_slice(buf).into_iter::<serde_json::Value>();
    match iter.next() {
        Some(Ok(v)) => StepOutcome::Complete {
            consumed: iter.byte_offset(),
            text: serde_json::to_string(&v).unwrap_or_else(|_| String::new()),
        },
        Some(Err(e)) if e.is_eof() => StepOutcome::Incomplete,
        Some(Err(_)) => StepOutcome::Malformed { offset: iter.byte_offset() },
        None => StepOutcome::Drained { consumed: iter.byte_offset() },
    }
}

/// Index of the first byte at or after `i` that is not a null byte, or the
/// end of `s` if only null bytes remain.
pub open spec fn skip_nulls(s: Seq<u8>, i: int) -> int
    recommends
        0 <= i <= s.len(),
    decreases s.len() - i,
{
    if i < s.len() && s[i] == 0u8 {
        skip_nulls(s, i + 1)
    } else {
        i
    }
}

/// The messages the extractor emits from `s` starting at cursor `i`, paired
/// with the cursor it stops at. Null bytes at the cursor are padding and are
/// skipped; a complete value is emitted and consumed; malformed bytes move
/// the cursor one byte past the reported offset and emit nothing; a
/// truncated value leaves the cursor where it stands.
pub open spec fn extract_from(s: Seq<u8>, i: int) -> (Seq<String>, int)
    recommends
        0 <= i <= s.len(),
    decreases s.len() - i,
{
    let j = skip_nulls(s, i);
    if !(i <= j <= s.len()) {
        (Seq::empty(), i)
    } else if j >= s.len() {
        (Seq::empty(), j)
    } else {
        match json_step(s.subrange(j, s.len() as int)) {
            StepOutcome::Complete { consumed, text } => {
                if 1 <= consumed <= s.len() - j {
                    let rest = extract_from(s, j + consumed);
                    (seq![text] + rest.0, rest.1)
                } else {
                    (Seq::empty(), j)
                }
            },
            StepOutcome::Incomplete => (Seq::empty(), j),
            StepOutcome::Malformed { offset } => {
                if offset + 1 <= s.len() - j {
                    extract_from(s, j + offset + 1)
                } else {
                    (Seq::empty(), s.len() as int)
                }
            },
            StepOutcome::Drained { .. } => (Seq::empty(), s.len() as int),
        }
    }
}

/// `skip_nulls` lands on the first non-null byte: it never passes the end,
/// never moves backwards, and stops exactly where a non-null byte stands.
pub proof fn lemma_skip_nulls_bounds(s: Seq<u8>, i: int)
    requires
        0 <= i <= s.len(),
    ensures
        i <= skip_nulls(s, i) <= s.len(),
        skip_nulls(s, i) < s.len() ==> s[skip_nulls(s, i)] != 0u8,
    decreases s.len() - i,
{
    if i < s.len() && s[i] == 0u8 {
        lemma_skip_nulls_bounds(s, i + 1);
    }
}

/// The cursor invariant: extraction never moves the cursor backwards and
/// never past the end of the buffer.
pub proof fn lemma_cursor_in_range(s: Seq<u8>, i: int)
    requires
        0 <= i <= s.len(),
    ensures
        i <= extract_from(s, i).1 <= s.len(),
    decreases s.len() - i,
{
    lemma_skip_nulls_bounds(s, i);
    let j = skip_nulls(s, i);
    if j < s.len() {
        match json_step(s.subrange(j, s.len() as int)) {
            StepOutcome::Complete { consumed, .. } => {
                if 1 <= consumed <= s.len() - j {
                    lemma_cursor_in_range(s, j + consumed);
                }
            },
            StepOutcome::Malformed { offset } => {
                if offset + 1 <= s.len() - j {
                    lemma_cursor_in_range(s, j + offset + 1);
                }
            },
            _ => {},
        }
    }
}

proof fn lemma_stalled_stable(s: Seq<u8>, i: int)
    requires
        0 <= i <= s.len(),
    ensures
        i <= extract_from(s, i).1 <= s.len(),
        extract_from(s.skip(extract_from(s, i).1), 0).0 == Seq::<String>::empty(),
        extract_from(s.skip(extract_from(s, i).1), 0).1 == 0,
    decreases s.len() - i,
{
    lemma_skip_nulls_bounds(s, i);
    lemma_cursor_in_range(s, i);
    let j = skip_nulls(s, i);
    let c = extract_from(s, i).1;
    if j >= s.len() {
        assert(s.skip(c) =~= Seq::<u8>::empty());
    } else {
        let t = s.skip(j);
        assert(t.subrange(0, t.len() as int) =~= s.subrange(j, s.len() as int));
        match json_step(s.subrange(j, s.len() as int)) {
            StepOutcome::Complete { consumed, .. } => {
                if 1 <= consumed <= s.len() - j {
                    lemma_stalled_stable(s, j + consumed);
                } else {
                    assert(c == j);
                    assert(skip_nulls(t, 0) == 0);
                }
            },
            StepOutcome::Incomplete => {
                assert(c == j);
                assert(skip_nulls(t, 0) == 0);
            },
            StepOutcome::Malformed { offset } => {
                if offset + 1 <= s.len() - j {
                    lemma_stalled_stable(s, j + offset + 1);
                } else {
                    assert(s.skip(c) =~= Seq::<u8>::empty());
                }
            },
            StepOutcome::Drained { .. } => {
                assert(s.skip(c) =~= Seq::<u8>::empty());
            },
        }
    }
}

/// The "need more data" signal is stable: after extraction stops and the
/// buffer is compacted to its unconsumed suffix, running the extractor
/// again before any new byte arrives emits nothing and consumes nothing.
/// The suffix — a truncated value's bytes included — survives byte for
/// byte, so the bytes that complete it later do so with no duplication and
/// no loss.
pub proof fn lemma_need_more_data_preserves(s: Seq<u8>)
    ensures
        extract_from(s.skip(extract_from(s, 0).1), 0).0 == Seq::<String>::empty(),
        extract_from(s.skip(extract_from(s, 0).1), 0).1 == 0,
{
    lemma_stalled_stable(s, 0);
}

/// Whether the parser completes a value of text `m` at position `j` of `s`.
pub open spec fn completed_at(s: Seq<u8>, j: int, m: String) -> bool {
    json_step(s.subrange(j, s.len() as int)) matches StepOutcome::Complete { text, .. }
        && text == m
}

/// Malformed bytes are dropped, never published: every message the
/// extraction emits is the re-serialized text of a value the parser
/// completed at some position of the input — nothing else ever reaches a
/// subscriber.
pub proof fn lemma_emits_only_completed_values(s: Seq<u8>, i: int, k: int)
    requires
        0 <= i <= s.len(),
        0 <= k < extract_from(s, i).0.len(),
    ensures
        exists|j: int| 0 <= j <= s.len() && #[trigger] completed_at(s, j, extract_from(s, i).0[k]),
    decreases s.len() - i,
{
    lemma_skip_nulls_bounds(s, i);
    let j = skip_nulls(s, i);
    let msgs = extract_from(s, i).0;
    match json_step(s.subrange(j, s.len() as int)) {
        StepOutcome::Complete { consumed, text } => {
            if 1 <= consumed <= s.len() - j {
                let rest = extract_from(s, j + consumed).0;
                assert(msgs == seq![text] + rest);
                if k == 0 {
                    assert(msgs[0] == text);
                    assert(0 <= j <= s.len() && completed_at(s, j, msgs[0]));
                } else {
                    assert(msgs[k] == rest[k - 1]);
                    lemma_emits_only_completed_values(s, j + consumed, k - 1);
                }
            }
        },
        StepOutcome::Malformed { offset } => {
            if offset + 1 <= s.len() - j {
                assert(msgs == extract_from(s, j + offset + 1).0);
                lemma_emits_only_completed_values(s, j + offset + 1, k);
            }
        },
        _ => {},
    }
}

proof fn lemma_skip_nulls_shift(pad: Seq<u8>, t: Seq<u8>, i: int)
    requires
        0 <= i <= t.len(),
    ensures
        skip_nulls(pad + t, pad.len() + i) == pad.len() + skip_nulls(t, i),
    decreases t.len() - i,
{
    if i < t.len() {
        assert((pad + t)[pad.len() + i] == t[i]);
        if t[i] == 0u8 {
            lemma_skip_nulls_shift(pad, t, i + 1);
        }
    }
}

proof fn lemma_skip_nulls_through_pad(pad: Seq<u8>, t: Seq<u8>, x: int)
    requires
        0 <= x <= pad.len(),
        forall|p: int| 0 <= p < pad.len() ==> (#[trigger] pad[p]) == 0u8,
    ensures
        skip_nulls(pad + t, x) == skip_nulls(pad + t, pad.len() as int),
    decreases pad.len() - x,
{
    if x < pad.len() {
        assert((pad + t)[x] == pad[x]);
        lemma_skip_nulls_through_pad(pad, t, x + 1);
    }
}

proof fn lemma_extract_same_cursor(s: Seq<u8>, a: int, b: int)
    requires
        0 <= a <= s.len(),
        0 <= b <= s.len(),
        skip_nulls(s, a) == skip_nulls(s, b),
    ensures
        extract_from(s, a) == extract_from(s, b),
{
    lemma_skip_nulls_bounds(s, a);
    lemma_skip_nulls_bounds(s, b);
}

proof fn lemma_extract_shifted(pad: Seq<u8>, t: Seq<u8>, i: int)
    requires
        0 <= i <= t.len(),
    ensures
        extract_from(pad + t, pad.len() + i).0 == extract_from(t, i).0,
        extract_from(pad + t, pad.len() + i).1 == pad.len() + extract_from(t, i).1,
    decreases t.len() - i,
{
    let s = pad + t;
    lemma_skip_nulls_shift(pad, t, i);
    lemma_skip_nulls_bounds(t, i);
    let j = skip_nulls(t, i);
    if j < t.len() {
        assert(s.subrange(pad.len() + j, s.len() as int) =~= t.subrange(j, t.len() as int));
        match json_step(t.subrange(j, t.len() as int)) {
            StepOutcome::Complete { consumed, .. } => {
                if 1 <= consumed <= t.len() - j {
                    lemma_extract_shifted(pad, t, j + consumed);
                }
            },
            StepOutcome::Malformed { offset } => {
                if offset + 1 <= t.len() - j {
                    lemma_extract_shifted(pad, t, j + offset + 1);
                }
            },
            _ => {},
        }
    }
}

/// Null-byte padding carries nothing: a run of null bytes in front of the
/// input changes neither the messages that come out nor the bytes that stay
/// behind.
pub proof fn lemma_null_padding_ignored(pad: Seq<u8>, t: Seq<u8>)
    requires
        forall|p: int| 0 <= p < pad.len() ==> (#[trigger] pad[p]) == 0u8,
    ensures
        extract_from(pad + t, 0).0 == extract_from(t, 0).0,
        extract_from(pad + t, 0).1 == pad.len() + extract_from(t, 0).1,
{
    lemma_skip_nulls_through_pad(pad, t, 0);
    lemma_skip_nulls_shift(pad, t, 0);
    lemma_extract_same_cursor(pad + t, 0, pad.len() as int);
    lemma_extract_shifted(pad, t, 0);
}

/// Drop the first `cursor` bytes of `buffer`, keeping the rest in order.
fn compact_prefix(buffer: &mut Vec<u8>, cursor: usize)
    requires
        cursor <= old(buffer).len(),
    ensures
        final(buffer)@ == old(buffer)@.skip(cursor as int),
{
    let mut kept: Vec<u8> = Vec::new();
    let mut i: usize = cursor;
    while i < buffer.len()
        invariant
            cursor <= i <= buffer.len(),
            buffer@ == old(buffer)@,
            kept@ == old(buffer)@.subrange(cursor as int, i as int),
        decreases buffer.len() - i,
    {
        let b = buffer[i];
        kept.push(b);
        i = i + 1;
        proof {
            assert(kept@ =~= old(buffer)@.subrange(cursor as int, i as int));
        }
    }
    *buffer = kept;
    proof {
        assert(buffer@ =~= old(buffer)@.skip(cursor as int));
    }
}

/// Run the extractor over `buffer`: emit every complete JSON value found at
/// the front, in order, then compact the buffer so that only the unconsumed
/// suffix remains (at most one truncated fragment plus trailing bytes).
pub fn extract_frames(buffer: &mut Vec<u8>) -> (msgs: Vec<String>)
    ensures
        msgs@ == extract_from(old(buffer)@, 0).0,
        final(buffer)@ == old(buffer)@.skip(extract_from(old(buffer)@, 0).1),
{
    let ghost s = buffer@;
    let mut msgs: Vec<String> = Vec::new();
    let mut cursor: usize = 0;
    loop
        invariant_except_break
            buffer@ == s,
            cursor <= buffer.len(),
            extract_from(s, 0).0 == msgs@ + extract_from(s, cursor as int).0,
            extract_from(s, 0).1 == extract_from(s, cursor as int).1,
        ensures
            buffer@ == s,
            cursor <= buffer.len(),
            msgs@ == extract_from(s, 0).0,
            cursor as int == extract_from(s, 0).1,
        decreases s.len() - cursor,
    {
        let ghost c0 = cursor as int;
        while cursor < buffer.len() && buffer[cursor] == 0u8
            invariant
                buffer@ == s,
                c0 <= cursor <= buffer.len(),
                skip_nulls(s, c0) == skip_nulls(s, cursor as int),
            decreases buffer.len() - cursor,
        {
            cursor = cursor + 1;
        }
        assert(skip_nulls(s, c0) == cursor as int);
        if cursor >= buffer.len() {
            proof {
                assert(extract_from(s, c0).0 =~= Seq::<String>::empty());
                assert(msgs@ + extract_from(s, c0).0 =~= msgs@);
            }
            break;
        }
        let tail = vstd::slice::slice_subrange(buffer.as_slice(), cursor, buffer.len());
        let r = json_front(tail);
        proof {
            assert(tail@ == s.subrange(cursor as int, s.len() as int));
        }
        match r {
            StepOutcome::Complete { consumed, text } => {
                msgs.push(text);
                cursor = cursor + consumed;
                proof {
                    assert(extract_from(s, c0).0 =~= seq![text] + extract_from(
                        s,
                        cursor as int,
                    ).0);
                    assert(extract_from(s, 0).0 =~= msgs@ + extract_from(s, cursor as int).0);
                }
            },
            StepOutcome::Incomplete => {
                proof {
                    assert(extract_from(s, c0).0 =~= Seq::<String>::empty());
                    assert(msgs@ + extract_from(s, c0).0 =~= msgs@);
                }
                break;
            },
            StepOutcome::Malformed { offset } => {
                cursor = cursor + offset + 1;
            },
            StepOutcome::Drained { consumed } => {
                cursor = cursor + consumed;
                proof {
                    assert(extract_from(s, c0).0 =~= Seq::<String>::empty());
                    assert(msgs@ + extract_from(s, c0).0 =~= msgs@);
                }
                break;
            },
        }
    }
    compact_prefix(buffer, cursor);
    msgs
}

} // verus!
