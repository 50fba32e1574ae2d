//! Server request construction for the board API: endpoint URLs, the paged
//! comment read, and the mini-script source that batches many board reads
//! into one execute call.  The surrounding runtime sends the requests and
//! decodes the responses; every byte it sends is assembled here.
use vstd::prelude::*;

verus! {

use vstd::string::StringExecFns;
use crate::attachments::Comment;
use crate::attachments::CommentModel;
use crate::attachments::comment_models;
use crate::text::append_chars;
use crate::text::chars_of;
use crate::text::chars_to_string;
use crate::text::copy_chars;
use crate::text::dec_digits;
use crate::text::push_dec;

// ---------------------------------------------------------------------------
// Errors
// ---------------------------------------------------------------------------
/// The failure kinds of the catalogue core, as surfaced to the host.
pub enum CoreError {
    /// A transport failure.
    Network(String),
    /// Malformed or unexpectedly shaped response data.
    Decode(String),
    /// The server answered with an error object.
    Server(String),
    /// The operation was cancelled.
    Cancelled,
    /// A file or directory operation failed.
    Filesystem(String),
    /// The caller's arguments were unusable.
    InvalidArguments(String),
}

pub open spec fn error_message_spec(e: CoreError) -> Seq<char> {
    match e {
        CoreError::Network(m) => "network error: "@ + m@,
        CoreError::Decode(m) => "decode error: "@ + m@,
        CoreError::Server(m) => "server error: "@ + m@,
        CoreError::Cancelled => "cancelled"@,
        CoreError::Filesystem(m) => "filesystem error: "@ + m@,
        CoreError::InvalidArguments(m) => "invalid arguments: "@ + m@,
    }
}

impl CoreError {
    /// The flattened message handed to the host.
    pub fn message(&self) -> (r: String)
        ensures
            r@ == error_message_spec(*self),
    {
        let (prefix, payload): (&str, Option<&String>) = match self {
            CoreError::Network(m) => ("network error: ", Some(m)),
            CoreError::Decode(m) => ("decode error: ", Some(m)),
            CoreError::Server(m) => ("server error: ", Some(m)),
            CoreError::Cancelled => ("cancelled", None),
            CoreError::Filesystem(m) => ("filesystem error: ", Some(m)),
            CoreError::InvalidArguments(m) => ("invalid arguments: ", Some(m)),
        };
        let mut out = String::new();
        out.append(prefix);
        match payload {
            Some(m) => {
                out.append(m.as_str());
            },
            None => {},
        }
        proof {
            assert(out@ =~= error_message_spec(*self));
        }
        out
    }
}

// ---------------------------------------------------------------------------
// URLs
// ---------------------------------------------------------------------------
/// A group id with its dashes removed, as the API's numeric form expects.
pub open spec fn strip_dashes(s: Seq<char>) -> Seq<char>
    decreases s,
{
    if s.len() == 0 {
        Seq::empty()
    } else {
        let r = strip_dashes(s.drop_last());
        if s.last() == '-' {
            r
        } else {
            r.push(s.last())
        }
    }
}

fn strip_dashes_vec(v: &Vec<char>) -> (r: Vec<char>)
    ensures
        r@ == strip_dashes(v@),
{
    let n = v.len();
    let mut out: Vec<char> = Vec::new();
    let mut i: usize = 0;
    proof {
        assert(v@.subrange(0, 0) =~= Seq::<char>::empty());
        assert(out@ =~= strip_dashes(v@.subrange(0, 0)));
    }
    while i < n
        invariant
            n == v@.len(),
            i <= n,
            out@ == strip_dashes(v@.subrange(0, i as int)),
        decreases n - i,
    {
        proof {
            assert(v@.subrange(0, i + 1).drop_last() =~= v@.subrange(0, i as int));
            assert(v@.subrange(0, i + 1).last() == v@[i as int]);
        }
        if v[i] != '-' {
            out.push(v[i]);
        }
        i = i + 1;
    }
    proof {
        assert(v@.subrange(0, n as int) =~= v@);
    }
    out
}

/// The server-time ping URL.
pub open spec fn ping_url_spec(token: Seq<char>) -> Seq<char> {
    "https://api.vk.com/method/utils.getServerTime?access_token="@ + token + "&v=5.131"@
}

pub fn build_ping_url(token: &str) -> (r: String)
    ensures
        r@ == ping_url_spec(token@),
{
    let mut out = String::from_str("https://api.vk.com/method/utils.getServerTime?access_token=");
    out.append(token);
    out.append("&v=5.131");
    proof {
        assert(out@ =~= ping_url_spec(token@));
    }
    out
}

/// One page of the board-comments read.
pub open spec fn comments_url_spec(
    group: Seq<char>,
    topic: Seq<char>,
    count: u64,
    offset: u64,
    token: Seq<char>,
) -> Seq<char> {
    "https://api.vk.com/method/board.getComments?group_id="@ + strip_dashes(group) + "&topic_id="@
        + topic + "&count="@ + dec_digits(count as nat) + "&offset="@ + dec_digits(offset as nat)
        + "&access_token="@ + token + "&v=5.131"@
}

pub fn build_comments_url(group: &str, topic: &str, count: u64, offset: u64, token: &str) -> (r:
    String)
    ensures
        r@ == comments_url_spec(group@, topic@, count, offset, token@),
{
    let g = chars_of(group);
    let gs = strip_dashes_vec(&g);
    let mut out = String::from_str("https://api.vk.com/method/board.getComments?group_id=");
    append_chars(&mut out, &gs);
    out.append("&topic_id=");
    out.append(topic);
    out.append("&count=");
    let mut digits: Vec<char> = Vec::new();
    push_dec(&mut digits, count);
    append_chars(&mut out, &digits);
    out.append("&offset=");
    let mut odigits: Vec<char> = Vec::new();
    push_dec(&mut odigits, offset);
    append_chars(&mut out, &odigits);
    out.append("&access_token=");
    out.append(token);
    out.append("&v=5.131");
    proof {
        assert(out@ =~= comments_url_spec(group@, topic@, count, offset, token@));
    }
    out
}

/// The multi-call execute endpoint; the token, version and script travel as
/// form fields.
pub fn execute_url() -> (r: String)
    ensures
        r@ == "https://api.vk.com/method/execute"@,
{
    String::from_str("https://api.vk.com/method/execute")
}

/// The protocol version sent with every call.
pub fn api_version() -> (r: String)
    ensures
        r@ == "5.131"@,
{
    String::from_str("5.131")
}

// ---------------------------------------------------------------------------
// Mini-script construction
// ---------------------------------------------------------------------------
/// One server-side board read at an offset, as mini-script source.
pub open spec fn offset_call_spec(gid: Seq<char>, tid: Seq<char>, offset: u64) -> Seq<char> {
    "API.board.getComments({\"group_id\":"@ + gid + ",\"topic_id\":"@ + tid + ",\"count\":100,\"offset\":"@
        + dec_digits(offset as nat) + "})"@
}

/// One server-side head read (first hundred comments, extended), as
/// mini-script source.
pub open spec fn head_call_spec(gid: Seq<char>, tid: Seq<char>) -> Seq<char> {
    "API.board.getComments({\"group_id\":"@ + gid + ",\"topic_id\":"@ + tid
        + ",\"count\":100,\"extended\":1})"@
}

/// Comma-joined call sources.
pub open spec fn join_commas(calls: Seq<Seq<char>>) -> Seq<char>
    decreases calls,
{
    if calls.len() == 0 {
        Seq::empty()
    } else if calls.len() == 1 {
        calls[0]
    } else {
        join_commas(calls.drop_last()) + ","@ + calls.last()
    }
}

/// A whole mini-script: it returns the array of its calls' results.
pub open spec fn script_spec(calls: Seq<Seq<char>>) -> Seq<char> {
    "return ["@ + join_commas(calls) + "];"@
}

/// The offsets of the pages beyond the first: `100, 200, …` up to the
/// reported total.
pub open spec fn remaining_offsets_spec(total: u64) -> Seq<u64> {
    if total <= 100 {
        Seq::empty()
    } else {
        Seq::new((((total - 1) / 100)) as nat, |i: int| (100 * (i + 1)) as u64)
    }
}

/// Computes the page offsets that remain after the first page of one
/// hundred comments.
pub fn remaining_offsets(total: u64) -> (r: Vec<u64>)
    ensures
        r@ == remaining_offsets_spec(total),
{
    let mut out: Vec<u64> = Vec::new();
    if total <= 100 {
        proof {
            assert(out@ =~= remaining_offsets_spec(total));
        }
        return out;
    }
    let pages = (total - 1) / 100;
    let mut i: u64 = 0;
    while i < pages
        invariant
            pages == (total - 1) / 100,
            total > 100,
            i <= pages,
            out@.len() == i,
            forall|k: int| 0 <= k < i ==> out@[k] == (100 * (k + 1)) as u64,
        decreases pages - i,
    {
        out.push(100 * (i + 1));
        i = i + 1;
    }
    proof {
        assert(out@ =~= remaining_offsets_spec(total));
    }
    out
}

/// The mini-script that reads several pages of one topic in one round
/// trip: one board read per offset, ten offsets to a chunk at the call
/// site.
pub fn build_offsets_script(group: &str, topic: &str, offsets: &Vec<u64>) -> (r: String)
    ensures
        r@ == script_spec(
            Seq::new(
                offsets@.len(),
                |i: int| offset_call_spec(strip_dashes(group@), topic@, offsets@[i]),
            ),
        ),
{
    let g = chars_of(group);
    let gs = strip_dashes_vec(&g);
    let t = chars_of(topic);
    let ghost calls = Seq::new(
        offsets@.len(),
        |i: int| offset_call_spec(strip_dashes(group@), topic@, offsets@[i]),
    );
    let n = offsets.len();
    let mut body: Vec<char> = Vec::new();
    let mut i: usize = 0;
    proof {
        assert(body@ =~= join_commas(calls.subrange(0, 0)));
    }
    while i < n
        invariant
            n == offsets@.len(),
            i <= n,
            gs@ == strip_dashes(group@),
            t@ == topic@,
            calls == Seq::new(
                offsets@.len(),
                |i: int| offset_call_spec(strip_dashes(group@), topic@, offsets@[i]),
            ),
            body@ == join_commas(calls.subrange(0, i as int)),
        decreases n - i,
    {
        if i > 0 {
            body.push(',');
        }
        let mut call: Vec<char> = chars_of("API.board.getComments({\"group_id\":");
        let mut gsc = copy_chars(&gs);
        call.append(&mut gsc);
        let mut mid = chars_of(",\"topic_id\":");
        call.append(&mut mid);
        let mut tc = copy_chars(&t);
        call.append(&mut tc);
        let mut mid2 = chars_of(",\"count\":100,\"offset\":");
        call.append(&mut mid2);
        push_dec(&mut call, offsets[i]);
        let mut tail = chars_of("})");
        call.append(&mut tail);
        proof {
            assert(call@ =~= offset_call_spec(strip_dashes(group@), topic@, offsets@[i as int]));
        }
        let mut cc = call;
        body.append(&mut cc);
        proof {
            vstd::prelude::reveal_strlit(",");
            assert(calls.subrange(0, i + 1).drop_last() =~= calls.subrange(0, i as int));
            assert(calls.subrange(0, i + 1).last() == calls[i as int]);
            assert(body@ =~= join_commas(calls.subrange(0, i + 1)));
        }
        i = i + 1;
    }
    proof {
        assert(calls.subrange(0, n as int) =~= calls);
    }
    let mut out = String::from_str("return [");
    append_chars(&mut out, &body);
    out.append("];");
    proof {
        assert(out@ =~= script_spec(calls));
    }
    out
}

/// The mini-script that reads the heads of many topics in one round trip:
/// one extended board read per target, twenty-five targets to a chunk at
/// the call site.
pub fn build_heads_script(targets: &Vec<(String, String)>) -> (r: String)
    ensures
        r@ == script_spec(
            Seq::new(
                targets@.len(),
                |i: int| head_call_spec(strip_dashes(targets@[i].0@), targets@[i].1@),
            ),
        ),
{
    let ghost calls = Seq::new(
        targets@.len(),
        |i: int| head_call_spec(strip_dashes(targets@[i].0@), targets@[i].1@),
    );
    let n = targets.len();
    let mut body: Vec<char> = Vec::new();
    let mut i: usize = 0;
    proof {
        assert(body@ =~= join_commas(calls.subrange(0, 0)));
    }
    while i < n
        invariant
            n == targets@.len(),
            i <= n,
            calls == Seq::new(
                targets@.len(),
                |i: int| head_call_spec(strip_dashes(targets@[i].0@), targets@[i].1@),
            ),
            body@ == join_commas(calls.subrange(0, i as int)),
        decreases n - i,
    {
        if i > 0 {
            body.push(',');
        }
        let g = chars_of(targets[i].0.as_str());
        let gs = strip_dashes_vec(&g);
        let t = chars_of(targets[i].1.as_str());
        let mut call: Vec<char> = chars_of("API.board.getComments({\"group_id\":");
        let mut gsc = copy_chars(&gs);
        call.append(&mut gsc);
        let mut mid = chars_of(",\"topic_id\":");
        call.append(&mut mid);
        let mut tc = copy_chars(&t);
        call.append(&mut tc);
        let mut tail = chars_of(",\"count\":100,\"extended\":1})");
        call.append(&mut tail);
        proof {
            assert(call@ =~= head_call_spec(
                strip_dashes(targets@[i as int].0@),
                targets@[i as int].1@,
            ));
        }
        let mut cc = call;
        body.append(&mut cc);
        proof {
            vstd::prelude::reveal_strlit(",");
            assert(calls.subrange(0, i + 1).drop_last() =~= calls.subrange(0, i as int));
            assert(calls.subrange(0, i + 1).last() == calls[i as int]);
            assert(body@ =~= join_commas(calls.subrange(0, i + 1)));
        }
        i = i + 1;
    }
    proof {
        assert(calls.subrange(0, n as int) =~= calls);
    }
    let mut out = String::from_str("return [");
    append_chars(&mut out, &body);
    out.append("];");
    proof {
        assert(out@ =~= script_spec(calls));
    }
    out
}

// ---------------------------------------------------------------------------
// Chunking
// ---------------------------------------------------------------------------
/// A sequence cut into chunks of at most `size`, in order; concatenating
/// the chunks gives back the sequence.
pub open spec fn chunks_of<T>(s: Seq<T>, size: int) -> Seq<Seq<T>>
    decreases s.len(),
{
    if size <= 0 || s.len() == 0 {
        Seq::empty()
    } else if s.len() <= size {
        seq![s]
    } else {
        seq![s.take(size)] + chunks_of(s.skip(size), size)
    }
}

pub open spec fn vec_views<T>(s: Seq<Vec<T>>) -> Seq<Seq<T>> {
    Seq::new(s.len(), |i: int| s[i]@)
}

/// Cuts a vector of plain values into chunks of at most `size`.
pub fn chunk_vec<T: Copy>(v: &Vec<T>, size: usize) -> (r: Vec<Vec<T>>)
    requires
        size >= 1,
    ensures
        vec_views(r@) == chunks_of(v@, size as int),
{
    let n = v.len();
    let mut out: Vec<Vec<T>> = Vec::new();
    let mut i: usize = 0;
    proof {
        assert(v@.skip(0) =~= v@);
        assert(vec_views(out@) =~= Seq::<Seq<T>>::empty());
        assert(vec_views(out@) + chunks_of(v@.skip(0), size as int) =~= chunks_of(
            v@,
            size as int,
        ));
    }
    while i < n
        invariant
            n == v@.len(),
            i <= n,
            size >= 1,
            vec_views(out@) + chunks_of(v@.skip(i as int), size as int) =~= chunks_of(
                v@,
                size as int,
            ),
        decreases n - i,
    {
        let upper = if n - i < size {
            n
        } else {
            i + size
        };
        let mut chunk: Vec<T> = Vec::new();
        let mut j = i;
        while j < upper
            invariant
                i <= j <= upper <= n,
                n == v@.len(),
                chunk@ == v@.subrange(i as int, j as int),
            decreases upper - j,
        {
            chunk.push(v[j]);
            proof {
                assert(v@.subrange(i as int, j + 1) =~= v@.subrange(i as int, j as int).push(
                    v@[j as int],
                ));
            }
            j = j + 1;
        }
        let ghost pre_out = out@;
        let ghost t = v@.skip(i as int);
        out.push(chunk);
        proof {
            assert(vec_views(out@) =~= vec_views(pre_out).push(v@.subrange(
                i as int,
                upper as int,
            )));
            if n - i <= size {
                assert(t.len() <= size as int);
                assert(v@.subrange(i as int, upper as int) =~= t);
                assert(chunks_of(t, size as int) =~= seq![t]);
                assert(v@.skip(upper as int).len() == 0);
                assert(chunks_of(v@.skip(upper as int), size as int) =~= Seq::<Seq<T>>::empty());
                assert(vec_views(pre_out) + (seq![t] + Seq::<Seq<T>>::empty()) =~= vec_views(
                    pre_out,
                ).push(t) + Seq::<Seq<T>>::empty());
                assert(vec_views(pre_out) + chunks_of(t, size as int) =~= vec_views(out@)
                    + chunks_of(v@.skip(upper as int), size as int));
            } else {
                assert(t.len() > size as int);
                assert(v@.subrange(i as int, upper as int) =~= t.take(size as int));
                assert(t.skip(size as int) =~= v@.skip(i + size));
                assert(chunks_of(t, size as int) =~= seq![t.take(size as int)] + chunks_of(
                    v@.skip(upper as int),
                    size as int,
                ));
                assert(vec_views(pre_out) + (seq![t.take(size as int)] + chunks_of(
                    v@.skip(upper as int),
                    size as int,
                )) =~= vec_views(pre_out).push(t.take(size as int)) + chunks_of(
                    v@.skip(upper as int),
                    size as int,
                ));
            }
        }
        i = upper;
    }
    proof {
        assert(v@.skip(n as int).len() == 0);
        assert(chunks_of(v@.skip(n as int), size as int) =~= Seq::<Seq<T>>::empty());
        assert(vec_views(out@) + Seq::<Seq<T>>::empty() =~= vec_views(out@));
    }
    out
}

// ---------------------------------------------------------------------------
// Joining comment texts
// ---------------------------------------------------------------------------
/// The texts the server sent, in order; comments without text contribute
/// nothing.
pub open spec fn present_texts(items: Seq<CommentModel>) -> Seq<Seq<char>>
    decreases items,
{
    if items.len() == 0 {
        Seq::empty()
    } else {
        let r = present_texts(items.drop_last());
        match items.last().text {
            Some(t) => r.push(t),
            None => r,
        }
    }
}

/// Texts joined with a line break between them, as the root-index read
/// hands them to the parser.
pub open spec fn joined_texts(ts: Seq<Seq<char>>) -> Seq<char>
    decreases ts,
{
    if ts.len() == 0 {
        Seq::empty()
    } else if ts.len() == 1 {
        ts[0]
    } else {
        joined_texts(ts.drop_last()) + "\n"@ + ts.last()
    }
}

/// Joins the texts of a comment sequence with line breaks.
pub fn join_comment_texts(items: &Vec<Comment>) -> (r: String)
    ensures
        r@ == joined_texts(present_texts(comment_models(items@))),
{
    let n = items.len();
    let mut out: Vec<char> = Vec::new();
    let mut any = false;
    let mut i: usize = 0;
    let ghost ms = comment_models(items@);
    proof {
        assert(ms.subrange(0, 0) =~= Seq::<CommentModel>::empty());
        assert(present_texts(ms.subrange(0, 0)) =~= Seq::<Seq<char>>::empty());
    }
    while i < n
        invariant
            n == items@.len(),
            i <= n,
            ms == comment_models(items@),
            any == (present_texts(ms.subrange(0, i as int)).len() > 0),
            out@ == joined_texts(present_texts(ms.subrange(0, i as int))),
        decreases n - i,
    {
        proof {
            assert(ms.subrange(0, i + 1).drop_last() =~= ms.subrange(0, i as int));
            assert(ms.subrange(0, i + 1).last() == ms[i as int]);
        }
        match &items[i].text {
            Some(t) => {
                if any {
                    out.push('\n');
                }
                let mut tc = chars_of(t.as_str());
                out.append(&mut tc);
                proof {
                    vstd::prelude::reveal_strlit("\n");
                    let pt = present_texts(ms.subrange(0, i as int));
                    assert(present_texts(ms.subrange(0, i + 1)) =~= pt.push(t@));
                    if pt.len() > 0 {
                        assert(pt.push(t@).drop_last() =~= pt);
                        assert(out@ =~= joined_texts(pt.push(t@)));
                    } else {
                        assert(out@ =~= joined_texts(pt.push(t@)));
                    }
                }
                any = true;
            },
            None => {
                proof {
                    assert(present_texts(ms.subrange(0, i + 1)) =~= present_texts(
                        ms.subrange(0, i as int),
                    ));
                }
            },
        }
        i = i + 1;
    }
    proof {
        assert(ms.subrange(0, n as int) =~= ms);
    }
    chars_to_string(&out)
}

/// Texts each terminated by a line break, as the head previews hand them
/// to the parser.
pub open spec fn terminated_texts(ts: Seq<Seq<char>>) -> Seq<char>
    decreases ts,
{
    if ts.len() == 0 {
        Seq::empty()
    } else {
        terminated_texts(ts.drop_last()) + ts.last() + "\n"@
    }
}

/// Concatenates the texts of a comment sequence, each followed by a line
/// break.
pub fn concat_comment_texts(items: &Vec<Comment>) -> (r: String)
    ensures
        r@ == terminated_texts(present_texts(comment_models(items@))),
{
    let n = items.len();
    let mut out: Vec<char> = Vec::new();
    let mut i: usize = 0;
    let ghost ms = comment_models(items@);
    proof {
        assert(ms.subrange(0, 0) =~= Seq::<CommentModel>::empty());
        assert(present_texts(ms.subrange(0, 0)) =~= Seq::<Seq<char>>::empty());
    }
    while i < n
        invariant
            n == items@.len(),
            i <= n,
            ms == comment_models(items@),
            out@ == terminated_texts(present_texts(ms.subrange(0, i as int))),
        decreases n - i,
    {
        proof {
            assert(ms.subrange(0, i + 1).drop_last() =~= ms.subrange(0, i as int));
            assert(ms.subrange(0, i + 1).last() == ms[i as int]);
        }
        match &items[i].text {
            Some(t) => {
                let mut tc = chars_of(t.as_str());
                out.append(&mut tc);
                out.push('\n');
                proof {
                    vstd::prelude::reveal_strlit("\n");
                    let pt = present_texts(ms.subrange(0, i as int));
                    assert(present_texts(ms.subrange(0, i + 1)) =~= pt.push(t@));
                    assert(pt.push(t@).drop_last() =~= pt);
                    assert(out@ =~= terminated_texts(pt.push(t@)));
                }
            },
            None => {
                proof {
                    assert(present_texts(ms.subrange(0, i + 1)) =~= present_texts(
                        ms.subrange(0, i as int),
                    ));
                }
            },
        }
        i = i + 1;
    }
    proof {
        assert(ms.subrange(0, n as int) =~= ms);
    }
    chars_to_string(&out)
}

} // verus!
