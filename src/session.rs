use vstd::prelude::*;
use vstd::slice::slice_subrange;
use vstd::utf8::{decode_utf8, valid_utf8};

use crate::command::{CommandError, chars_of, dispatch, dispatch_line, error_text, is_lit};
use crate::device::SmartSocket;

verus! {

/// What the server does with one read from a client: the text to write back,
/// and whether to close the connection afterwards.
pub struct ChunkReply {
    pub output: String,
    pub close: bool,
}

/// The text with one trailing `\r\n` removed, or else one trailing `\n`.
pub open spec fn strip_line_end(t: Seq<char>) -> Seq<char> {
    if t.len() >= 2 && t[t.len() - 2] == '\r' && t[t.len() - 1] == '\n' {
        t.subrange(0, t.len() - 2)
    } else if t.len() >= 1 && t[t.len() - 1] == '\n' {
        t.drop_last()
    } else {
        t
    }
}

/// The pieces of `t` between line feeds, in order. There is always at least
/// one piece: the empty text is one empty line.
pub open spec fn split_lines(t: Seq<char>) -> Seq<Seq<char>>
    decreases t.len(),
{
    if t.len() == 0 {
        seq![Seq::<char>::empty()]
    } else {
        let rest = split_lines(t.drop_last());
        if t.last() == '\n' {
            rest.push(Seq::<char>::empty())
        } else {
            rest.update(rest.len() - 1, rest.last().push(t.last()))
        }
    }
}

/// A reply as it is written to the client: a success ends with `\n`, an error
/// with `\r\n`.
pub open spec fn wire_reply(r: Result<Seq<char>, CommandError>) -> Seq<char> {
    match r {
        Ok(t) => t.push('\n'),
        Err(e) => error_text(e) + seq!['\r', '\n'],
    }
}

/// Serving the lines in order: the socket after them, what is written back,
/// and whether the connection closes. At a line `exit` the connection closes
/// at once: nothing is written for it and the lines after it are dropped.
pub open spec fn run_lines(s: SmartSocket, lines: Seq<Seq<char>>) -> (SmartSocket, Seq<char>, bool)
    decreases lines.len(),
{
    if lines.len() == 0 {
        (s, Seq::<char>::empty(), false)
    } else if lines[0] == "exit"@ {
        (s, Seq::<char>::empty(), true)
    } else {
        let (s1, r) = dispatch(s, lines[0]);
        let rest = run_lines(s1, lines.drop_first());
        (rest.0, wire_reply(r) + rest.1, rest.2)
    }
}

/// Serving the text of one read: one line end is stripped, then each line is
/// served in turn.
pub open spec fn text_outcome(s: SmartSocket, t: Seq<char>) -> (SmartSocket, Seq<char>, bool) {
    run_lines(s, split_lines(strip_line_end(t)))
}

/// Serving the bytes of one read. No bytes means the client has shut its side
/// down, and the connection closes. Bytes that are no valid UTF-8 are dropped
/// without reply and the connection stays open.
pub open spec fn chunk_outcome(s: SmartSocket, bytes: Seq<u8>) -> (SmartSocket, Seq<char>, bool) {
    if bytes.len() == 0 {
        (s, Seq::<char>::empty(), true)
    } else if !valid_utf8(bytes) {
        (s, Seq::<char>::empty(), false)
    } else {
        text_outcome(s, decode_utf8(bytes))
    }
}

/// The text of each line.
pub open spec fn lines_view(v: Seq<Vec<char>>) -> Seq<Seq<char>> {
    Seq::new(v.len(), |i: int| v[i]@)
}

/// Relies on `std::str::from_utf8`: it accepts exactly the byte sequences that
/// are valid UTF-8, and gives the characters that they encode.
#[verifier::external_body]
fn utf8_text(bytes: &[u8]) -> (r: Option<&str>)
    ensures
        r is Some <==> valid_utf8(bytes@),
        r matches Some(s) ==> s@ == decode_utf8(bytes@),
{
    std::str::from_utf8(bytes).ok()
}

/// `t` without its line end, as `strip_line_end` says.
fn strip_line_end_chars(t: &[char]) -> (r: &[char])
    ensures
        r@ == strip_line_end(t@),
{
    let n = t.len();
    if n >= 2 && t[n - 2] == '\r' && t[n - 1] == '\n' {
        slice_subrange(t, 0, n - 2)
    } else if n >= 1 && t[n - 1] == '\n' {
        slice_subrange(t, 0, n - 1)
    } else {
        t
    }
}

/// The lines of `t`, as `split_lines` says.
fn split_lines_chars(t: &[char]) -> (r: Vec<Vec<char>>)
    ensures
        lines_view(r@) == split_lines(t@),
{
    let mut done: Vec<Vec<char>> = Vec::new();
    let mut cur: Vec<char> = Vec::new();
    let mut i: usize = 0;
    assert(t@.subrange(0, 0) =~= Seq::<char>::empty());
    assert(lines_view(done@).push(cur@) =~= split_lines(t@.subrange(0, 0)));
    while i < t.len()
        invariant
            i <= t.len(),
            lines_view(done@).push(cur@) == split_lines(t@.subrange(0, i as int)),
        decreases t.len() - i,
    {
        let c = t[i];
        let ghost before = lines_view(done@);
        let ghost prefix = t@.subrange(0, i + 1);
        assert(prefix.drop_last() =~= t@.subrange(0, i as int));
        if c == '\n' {
            let ghost line = cur@;
            done.push(cur);
            cur = Vec::new();
            assert(lines_view(done@) =~= before.push(line));
        } else {
            cur.push(c);
        }
        assert(lines_view(done@).push(cur@) =~= split_lines(prefix));
        i = i + 1;
    }
    assert(t@.subrange(0, t.len() as int) =~= t@);
    done.push(cur);
    done
}

/// Serves the lines in order, as `run_lines` says.
fn serve_lines(socket: &mut SmartSocket, lines: &Vec<Vec<char>>) -> (r: ChunkReply)
    ensures
        (*final(socket), r.output@, r.close) == run_lines(*old(socket), lines_view(lines@)),
{
    let ghost all = lines_view(lines@);
    let mut output = String::new();
    let mut i: usize = 0;
    assert(all.skip(0) =~= all);
    assert(output@ + run_lines(*socket, all).1 =~= run_lines(*socket, all).1);
    while i < lines.len()
        invariant
            i <= lines.len(),
            all == lines_view(lines@),
            ({
                let rest = run_lines(*socket, all.skip(i as int));
                run_lines(*old(socket), all) == (rest.0, output@ + rest.1, rest.2)
            }),
        decreases lines.len() - i,
    {
        let ghost s0 = *socket;
        let ghost out0 = output@;
        proof {
            reveal_strlit("\n");
            reveal_strlit("\r\n");
            assert("\n"@ =~= seq!['\n']);
            assert("\r\n"@ =~= seq!['\r', '\n']);
        }
        assert(all.skip(i as int)[0] == lines@[i as int]@);
        assert(all.skip(i as int).drop_first() =~= all.skip(i + 1));
        let line = lines[i].as_slice();
        if is_lit(line, "exit") {
            assert(output@ + Seq::<char>::empty() =~= output@);
            return ChunkReply { output, close: true };
        }
        let reply = dispatch_line(socket, line);
        match reply {
            Ok(text) => {
                output.append(text.as_str());
                output.append("\n");
                assert(output@ =~= out0 + text@.push('\n'));
            },
            Err(e) => {
                output.append(e.message());
                output.append("\r\n");
                assert(output@ =~= out0 + (error_text(e) + seq!['\r', '\n']));
            },
        }
        assert(output@ =~= out0 + wire_reply(dispatch(s0, lines@[i as int]@).1));
        i = i + 1;
    }
    assert(all.skip(i as int) =~= Seq::<Seq<char>>::empty());
    assert(output@ + Seq::<char>::empty() =~= output@);
    ChunkReply { output, close: false }
}

/// Serves the text of one read from a client, as `text_outcome` says.
pub fn handle_text(socket: &mut SmartSocket, text: &str) -> (r: ChunkReply)
    ensures
        (*final(socket), r.output@, r.close) == text_outcome(*old(socket), text@),
{
    let chars = chars_of(text);
    let body = strip_line_end_chars(chars.as_slice());
    let lines = split_lines_chars(body);
    serve_lines(socket, &lines)
}

/// Serves the bytes of one read from a client, as `chunk_outcome` says.
pub fn handle_chunk(socket: &mut SmartSocket, chunk: &[u8]) -> (r: ChunkReply)
    ensures
        (*final(socket), r.output@, r.close) == chunk_outcome(*old(socket), chunk@),
{
    if chunk.len() == 0 {
        return ChunkReply { output: String::new(), close: true };
    }
    match utf8_text(chunk) {
        Some(text) => handle_text(socket, text),
        None => ChunkReply { output: String::new(), close: false },
    }
}

/// A text without a line feed is a single line.
pub proof fn lemma_single_line(t: Seq<char>)
    requires
        !t.contains('\n'),
    ensures
        split_lines(t) == seq![t],
    decreases t.len(),
{
    if t.len() > 0 {
        let p = t.drop_last();
        assert(!p.contains('\n')) by {
            if p.contains('\n') {
                let k = choose|k: int| 0 <= k < p.len() && p[k] == '\n';
                assert(t[k] == '\n');
            }
        }
        lemma_single_line(p);
        assert(t[t.len() - 1] != '\n');
        assert(p.push(t.last()) =~= t);
        assert(seq![p].update(0, p.push(t.last())) =~= seq![t]);
    } else {
        assert(t =~= Seq::<char>::empty());
    }
}

/// At the first line `exit` the connection closes: what is written back is the
/// replies to the lines before it and nothing more, the socket is as those
/// lines left it, and the lines after it have no effect.
pub proof fn lemma_exit_ends_session(s: SmartSocket, lines: Seq<Seq<char>>, k: int)
    requires
        0 <= k < lines.len(),
        lines[k] == "exit"@,
        forall|j: int| 0 <= j < k ==> lines[j] != "exit"@,
    ensures
        run_lines(s, lines) == (run_lines(s, lines.take(k)).0, run_lines(s, lines.take(k)).1, true),
    decreases k,
{
    let before = lines.take(k);
    if k == 0 {
        assert(before.len() == 0);
    } else {
        let (s1, r) = dispatch(s, lines[0]);
        assert(lines[0] != "exit"@);
        assert(before[0] == lines[0]);
        assert(before.drop_first() =~= lines.drop_first().take(k - 1));
        lemma_exit_ends_session(s1, lines.drop_first(), k - 1);
    }
}

/// A read of `exit`, with or without a line end, closes the connection with
/// nothing written back and the socket unchanged.
pub proof fn lemma_exit_closes_silently(s: SmartSocket, t: Seq<char>)
    requires
        t == "exit"@ || t == "exit\n"@ || t == "exit\r\n"@,
    ensures
        text_outcome(s, t) == (s, Seq::<char>::empty(), true),
{
    reveal_strlit("exit");
    reveal_strlit("exit\n");
    reveal_strlit("exit\r\n");
    let body = strip_line_end(t);
    assert(body =~= "exit"@);
    lemma_single_line(body);
}

} // verus!
