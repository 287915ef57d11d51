use vstd::prelude::*;

use vstd::string::StrSliceExecFns;

verus! {

/// `s` cut into runs of `max` characters, the last holding the remainder;
/// no run at all for empty text. (`max` is positive wherever this is used.)
pub open spec fn chunks_of(s: Seq<char>, max: nat) -> Seq<Seq<char>>
    decreases s.len(),
{
    if s.len() == 0 {
        Seq::empty()
    } else if max == 0 || s.len() <= max {
        seq![s]
    } else {
        seq![s.take(max as int)] + chunks_of(s.skip(max as int), max)
    }
}

/// The runs of `cs` written one after the other.
pub open spec fn joined(cs: Seq<Seq<char>>) -> Seq<char>
    decreases cs.len(),
{
    if cs.len() == 0 {
        Seq::empty()
    } else {
        cs[0] + joined(cs.drop_first())
    }
}

/// The character sequences of a sequence of strings.
pub open spec fn strings_view(v: Seq<String>) -> Seq<Seq<char>> {
    v.map_values(|c: String| c@)
}

/// Splits a reply into the messages that deliver it, each at most `max_chunk`
/// characters long.
pub fn chunk_reply(reply: &str, max_chunk: usize) -> (r: Vec<String>)
    requires
        max_chunk > 0,
    ensures
        strings_view(r@) == chunks_of(reply@, max_chunk as nat),
{
    let len = reply.unicode_len();
    let mut out: Vec<String> = Vec::new();
    let mut pos: usize = 0;
    assert(reply@.skip(0) =~= reply@);
    while pos < len
        invariant
            len == reply@.len(),
            pos <= len,
            max_chunk > 0,
            chunks_of(reply@, max_chunk as nat) == strings_view(out@) + chunks_of(
                reply@.skip(pos as int),
                max_chunk as nat,
            ),
        decreases len - pos,
    {
        let ghost rest = reply@.skip(pos as int);
        let end: usize = if len - pos <= max_chunk {
            len
        } else {
            pos + max_chunk
        };
        let chunk = reply.substring_char(pos, end).to_owned();
        proof {
            if len - pos <= max_chunk {
                assert(chunk@ =~= rest);
                assert(chunks_of(reply@.skip(end as int), max_chunk as nat) =~= Seq::<Seq<char>>::empty());
                assert(chunks_of(rest, max_chunk as nat) == seq![rest]);
            } else {
                assert(chunk@ =~= rest.take(max_chunk as int));
                assert(rest.skip(max_chunk as int) =~= reply@.skip(end as int));
            }
        }
        let ghost before = out@;
        out.push(chunk);
        assert(strings_view(out@) =~= strings_view(before).push(chunk@));
        assert(strings_view(out@) + chunks_of(reply@.skip(end as int), max_chunk as nat) =~= strings_view(before)
            + chunks_of(rest, max_chunk as nat));
        pos = end;
    }
    assert(reply@.skip(pos as int) =~= Seq::<char>::empty());
    assert(strings_view(out@) + Seq::<Seq<char>>::empty() =~= strings_view(out@));
    out
}

/// Writing the chunks of `s` one after the other gives back `s`; no chunk is
/// longer than `max`, none is empty, and every chunk but the last is exactly
/// `max` long. Empty text has no chunk.
pub proof fn lemma_chunks_reassemble(s: Seq<char>, max: nat)
    requires
        max > 0,
    ensures
        joined(chunks_of(s, max)) == s,
        forall|i: int| 0 <= i < chunks_of(s, max).len() ==> 0 < (#[trigger] chunks_of(s, max)[i]).len() <= max,
        forall|i: int| 0 <= i < chunks_of(s, max).len() - 1 ==> (#[trigger] chunks_of(s, max)[i]).len() == max,
        s.len() == 0 <==> chunks_of(s, max).len() == 0,
    decreases s.len(),
{
    let cs = chunks_of(s, max);
    if s.len() == 0 {
    } else if s.len() <= max {
        assert(cs.drop_first() =~= Seq::<Seq<char>>::empty());
        assert(cs[0] == s);
        assert(joined(cs.drop_first()) == Seq::<char>::empty());
        assert(joined(cs) =~= s);
    } else {
        let tail = chunks_of(s.skip(max as int), max);
        lemma_chunks_reassemble(s.skip(max as int), max);
        assert(cs.drop_first() =~= tail);
        assert(joined(cs) =~= s.take(max as int) + s.skip(max as int));
        assert(s.take(max as int) + s.skip(max as int) =~= s);
        assert forall|i: int| 0 <= i < cs.len() implies 0 < (#[trigger] cs[i]).len() <= max by {
            if i > 0 {
                assert(cs[i] == tail[i - 1]);
            }
        }
        assert forall|i: int| 0 <= i < cs.len() - 1 implies (#[trigger] cs[i]).len() == max by {
            if i > 0 {
                assert(cs[i] == tail[i - 1]);
            }
        }
    }
}

} // verus!
