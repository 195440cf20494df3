//! Server-sent events: lines out of chunks, and data out of lines.
use crate::text;
use vstd::prelude::*;

verus! {

/// What `String::from_utf8_lossy` makes of bytes.
pub uninterp spec fn lossy_utf8(bytes: Seq<u8>) -> Seq<char>;

/// `String::from_utf8_lossy`: the result is named after the bytes; bytes that
/// are UTF-8 are decoded as such.
#[verifier::external_body]
fn text_from_utf8_lossy(bytes: &[u8]) -> (r: String)
    ensures
        r@ == lossy_utf8(bytes@),
        vstd::utf8::valid_utf8(bytes@) ==> r@ == vstd::utf8::decode_utf8(bytes@),
{
    String::from_utf8_lossy(bytes).into_owned()
}

/// The byte that ends a line.
pub const LINE_FEED: u8 = 10;

/// The complete lines in bytes, each with its line feed.
pub open spec fn complete_lines(b: Seq<u8>) -> Seq<Seq<u8>>
    decreases b.len(),
{
    let n = text::first_at(b, LINE_FEED) as int;
    if n >= b.len() {
        seq![]
    } else {
        seq![b.take(n + 1)] + complete_lines(b.skip(n + 1))
    }
}

/// What follows the last complete line.
pub open spec fn remainder(b: Seq<u8>) -> Seq<u8>
    decreases b.len(),
{
    let n = text::first_at(b, LINE_FEED) as int;
    if n >= b.len() {
        b
    } else {
        remainder(b.skip(n + 1))
    }
}

/// Sequences one after the other.
pub open spec fn concatenated(parts: Seq<Seq<u8>>) -> Seq<u8>
    decreases parts.len(),
{
    if parts.len() == 0 {
        seq![]
    } else {
        parts[0] + concatenated(parts.drop_first())
    }
}

/// No byte is lost or moved: the complete lines, one after the other, and the
/// remainder are the bytes.
pub proof fn law_lines_keep_every_byte(b: Seq<u8>)
    ensures
        concatenated(complete_lines(b)) + remainder(b) == b,
    decreases b.len(),
{
    let n = text::first_at(b, LINE_FEED) as int;
    text::lemma_first_at(b, LINE_FEED);
    if n >= b.len() {
        assert(concatenated(complete_lines(b)) + remainder(b) =~= b);
    } else {
        let rest = b.skip(n + 1);
        law_lines_keep_every_byte(rest);
        let lines = complete_lines(b);
        assert(lines.drop_first() =~= complete_lines(rest));
        assert(concatenated(lines) + remainder(b) =~= b.take(n + 1) + (concatenated(
            complete_lines(rest),
        ) + remainder(rest)));
        assert(b.take(n + 1) + rest =~= b);
    }
}

/// Where a stream is cut into chunks makes no difference: the lines of two
/// chunks are the lines of the first, then those of what it leaves over and the
/// second; and what is left over is the same.
pub proof fn law_chunks_make_no_difference(a: Seq<u8>, b: Seq<u8>)
    ensures
        complete_lines(a + b) == complete_lines(a) + complete_lines(remainder(a) + b),
        remainder(a + b) == remainder(remainder(a) + b),
    decreases a.len(),
{
    let n = text::first_at(a, LINE_FEED) as int;
    text::lemma_first_at(a, LINE_FEED);
    if n >= a.len() {
        assert(complete_lines(a) + complete_lines(a + b) =~= complete_lines(a + b));
    } else {
        let ab = a + b;
        assert forall|j: int| 0 <= j < n implies ab[j] != LINE_FEED by {
            assert(ab[j] == a[j]);
        }
        text::lemma_first_at_is(ab, LINE_FEED, n);
        assert(ab.take(n + 1) =~= a.take(n + 1));
        assert(ab.skip(n + 1) =~= a.skip(n + 1) + b);
        law_chunks_make_no_difference(a.skip(n + 1), b);
        assert(complete_lines(ab) =~= complete_lines(a) + complete_lines(remainder(a) + b));
    }
}

/// Each complete line ends at its one line feed.
pub proof fn law_complete_line_has_one_line_feed(b: Seq<u8>, i: int)
    requires
        0 <= i < complete_lines(b).len(),
    ensures
        complete_lines(b)[i].len() > 0,
        text::first_at(complete_lines(b)[i], LINE_FEED) == complete_lines(b)[i].len() - 1,
    decreases b.len(),
{
    let n = text::first_at(b, LINE_FEED) as int;
    text::lemma_first_at(b, LINE_FEED);
    if i == 0 {
        let line = b.take(n + 1);
        text::lemma_first_at_is(line, LINE_FEED, n);
    } else {
        law_complete_line_has_one_line_feed(b.skip(n + 1), i - 1);
    }
}

/// Bytes that wait for the end of their line.
#[derive(Debug)]
pub struct LineBuffer {
    pub bytes: Vec<u8>,
}

impl View for LineBuffer {
    type V = Seq<u8>;

    open spec fn view(&self) -> Seq<u8> {
        self.bytes@
    }
}

impl LineBuffer {
    /// No bytes yet.
    pub fn new() -> (r: LineBuffer)
        ensures
            r@ == Seq::<u8>::empty(),
    {
        LineBuffer { bytes: Vec::new() }
    }

    /// Takes a chunk in.
    pub fn feed(&mut self, chunk: &[u8])
        ensures
            final(self)@ == old(self)@ + chunk@,
    {
        self.bytes.extend_from_slice(chunk);
        assert(self.bytes@ =~= old(self)@ + chunk@);
    }

    /// Gives the first complete line out, with its line feed.
    pub fn next_line(&mut self) -> (r: Option<Vec<u8>>)
        ensures
            r is None <==> text::first_at(old(self)@, LINE_FEED) >= old(self)@.len(),
            r is None ==> final(self)@ == old(self)@,
            r matches Some(line) ==> {
                let n = text::first_at(old(self)@, LINE_FEED) as int;
                line@ == old(self)@.take(n + 1) && final(self)@ == old(self)@.skip(n + 1)
            },
    {
        let n: usize = self.bytes.len();
        let mut i: usize = 0;
        while i < n && self.bytes[i] != LINE_FEED
            invariant
                i <= n,
                n == self.bytes@.len(),
                self.bytes@ == old(self)@,
                forall|j: int| 0 <= j < i ==> self.bytes@[j] != LINE_FEED,
            decreases n - i,
        {
            i += 1;
        }
        proof {
            text::lemma_first_at_is(self.bytes@, LINE_FEED, i as int);
        }
        if i == n {
            return None;
        }
        let rest = self.bytes.split_off(i + 1);
        let mut line = rest;
        std::mem::swap(&mut line, &mut self.bytes);
        assert(line@ =~= old(self)@.take(i + 1));
        assert(self.bytes@ =~= old(self)@.skip(i + 1));
        Some(line)
    }

    /// Gives out what is left.
    pub fn take_rest(&mut self) -> (r: Vec<u8>)
        ensures
            r@ == old(self)@,
            final(self)@ == Seq::<u8>::empty(),
    {
        let mut rest: Vec<u8> = Vec::new();
        std::mem::swap(&mut rest, &mut self.bytes);
        rest
    }
}

/// A text without carriage returns and line feeds at its end.
pub open spec fn chomped(s: Seq<char>) -> Seq<char>
    decreases s.len(),
{
    if s.len() > 0 && (s.last() == '\r' || s.last() == '\n') {
        chomped(s.drop_last())
    } else {
        s
    }
}

/// The text of a line as it came, without its end.
pub fn line_text(line: &[u8]) -> (r: String)
    ensures
        r@ == chomped(lossy_utf8(line@)),
{
    let s = text_from_utf8_lossy(line);
    let cs = text::chars_of(s.as_str());
    let mut n: usize = cs.len();
    assert(s@.take(n as int) =~= s@);
    while n > 0 && (cs[n - 1] == '\r' || cs[n - 1] == '\n')
        invariant
            n <= cs@.len(),
            cs@ == s@,
            chomped(s@) == chomped(s@.take(n as int)),
        decreases n,
    {
        assert(s@.take(n as int).drop_last() =~= s@.take(n - 1));
        n -= 1;
    }
    let r = s.as_str().substring_char(0, n).to_owned();
    assert(r@ =~= s@.take(n as int));
    r
}

/// What a line of an event stream brings.
pub enum SseLine {
    /// No data.
    Nothing,
    /// The mark that nothing follows.
    Done,
    /// Data.
    Data(Seq<char>),
}

/// What a line of an event stream brings.
pub open spec fn sse_line(line: Seq<char>) -> SseLine {
    match text::after_prefix(line, "data: "@) {
        Some(rest) => {
            let data = text::trimmed(rest);
            if data.len() == 0 {
                SseLine::Nothing
            } else if data == "[DONE]"@ {
                SseLine::Done
            } else {
                SseLine::Data(data)
            }
        },
        None => SseLine::Nothing,
    }
}

/// Data of a line, as it is handed out.
pub enum LineData<'a> {
    Nothing,
    Done,
    Data(&'a str),
}

/// What a line of an event stream brings.
pub fn line_data<'a>(line: &'a str) -> (r: LineData<'a>)
    ensures
        match r {
            LineData::Nothing => sse_line(line@) is Nothing,
            LineData::Done => sse_line(line@) is Done,
            LineData::Data(d) => sse_line(line@) == SseLine::Data(d@),
        },
{
    match text::strip_prefix(line, "data: ") {
        Some(rest) => {
            let data = text::trim(rest);
            if data.is_empty() {
                LineData::Nothing
            } else if text::same_text(data, "[DONE]") {
                LineData::Done
            } else {
                LineData::Data(data)
            }
        },
        None => LineData::Nothing,
    }
}

/// All lines in bytes: the complete ones, each with its line feed, and what
/// follows the last of them, if anything does.
pub open spec fn all_lines(b: Seq<u8>) -> Seq<Seq<u8>> {
    complete_lines(b) + if remainder(b).len() > 0 {
        seq![remainder(b)]
    } else {
        seq![]
    }
}

proof fn lemma_bits(s: u32)
    by (bit_vector)
    ensures
        s <= 0x7f ==> vstd::utf8::leading_byte_width_1(s) == s,
        vstd::utf8::leading_byte_width_2(s) >= 0x80,
        vstd::utf8::leading_byte_width_3(s) >= 0x80,
        vstd::utf8::leading_byte_width_4(s) >= 0x80,
        vstd::utf8::last_continuation_byte(s) >= 0x80,
        vstd::utf8::second_last_continuation_byte(s) >= 0x80,
        vstd::utf8::third_last_continuation_byte(s) >= 0x80,
{
}

proof fn lemma_encoded_char(c: char)
    ensures
        vstd::utf8::encode_scalar(c as u32).len() > 0,
        c == '\n' ==> vstd::utf8::encode_scalar(c as u32) == seq![LINE_FEED],
        c != '\n' ==> !vstd::utf8::encode_scalar(c as u32).contains(LINE_FEED),
{
    lemma_bits(c as u32);
}

proof fn lemma_encoded_in_two(a: Seq<char>, b: Seq<char>)
    ensures
        vstd::utf8::encode_utf8(a + b) == vstd::utf8::encode_utf8(a) + vstd::utf8::encode_utf8(b),
    decreases a.len(),
{
    if a.len() == 0 {
        assert(a + b =~= b);
        assert(vstd::utf8::encode_utf8(a) + vstd::utf8::encode_utf8(b)
            =~= vstd::utf8::encode_utf8(b));
    } else {
        lemma_encoded_in_two(a.drop_first(), b);
        assert((a + b).drop_first() =~= a.drop_first() + b);
        assert(vstd::utf8::encode_utf8(a + b) =~= vstd::utf8::encode_utf8(a)
            + vstd::utf8::encode_utf8(b));
    }
}

proof fn lemma_encoded_without_line_feed(s: Seq<char>)
    requires
        forall|i: int| 0 <= i < s.len() ==> s[i] != '\n',
    ensures
        forall|i: int|
            0 <= i < vstd::utf8::encode_utf8(s).len() ==> vstd::utf8::encode_utf8(s)[i]
                != LINE_FEED,
        s.len() > 0 ==> vstd::utf8::encode_utf8(s).len() > 0,
    decreases s.len(),
{
    if s.len() > 0 {
        let first = vstd::utf8::encode_scalar(s[0] as u32);
        let rest = s.drop_first();
        let b = vstd::utf8::encode_utf8(s);
        lemma_encoded_char(s[0]);
        lemma_encoded_without_line_feed(rest);
        assert forall|i: int| 0 <= i < b.len() implies b[i] != LINE_FEED by {
            if i < first.len() {
                assert(first.contains(first[i]));
            } else {
                assert(b[i] == vstd::utf8::encode_utf8(rest)[i - first.len()]);
            }
        }
    }
}

proof fn lemma_line_end(line: Seq<char>, c: char)
    requires
        c == '\r' || c == '\n',
    ensures
        sse_line(line.push(c)) == sse_line(line),
{
    reveal_strlit("data: ");
    let p = "data: "@;
    let longer = line.push(c);
    if p.is_prefix_of(line) {
        assert(longer.subrange(0, p.len() as int) =~= line.subrange(0, p.len() as int));
        assert(longer.skip(p.len() as int) =~= line.skip(p.len() as int).push(c));
        text::lemma_trimmed_push(line.skip(p.len() as int), c);
    } else if p.is_prefix_of(longer) {
        if line.len() >= p.len() {
            assert(longer.subrange(0, p.len() as int) =~= line.subrange(0, p.len() as int));
        } else {
            assert(longer.subrange(0, p.len() as int)[p.len() - 1] == c);
            assert(p[p.len() - 1] == ' ');
        }
    }
}

/// A line of a text's bytes brings what the line of the text brings that stands
/// at its place.
pub proof fn lemma_lines_of_encoding(s: Seq<char>)
    ensures
        all_lines(vstd::utf8::encode_utf8(s)).len() == text::lines_of(s).len(),
        forall|i: int|
            #![trigger text::lines_of(s)[i]]
            #![trigger all_lines(vstd::utf8::encode_utf8(s))[i]]
            0 <= i < text::lines_of(s).len() ==> {
                let line = all_lines(vstd::utf8::encode_utf8(s))[i];
                &&& vstd::utf8::valid_utf8(line)
                &&& sse_line(vstd::utf8::decode_utf8(line)) == sse_line(text::lines_of(s)[i])
            },
    decreases s.len(),
{
    let b = vstd::utf8::encode_utf8(s);
    let n = text::first_at(s, '\n') as int;
    text::lemma_first_at(s, '\n');
    if s.len() == 0 {
        assert(all_lines(b) =~= seq![]);
    } else if n >= s.len() {
        lemma_encoded_without_line_feed(s);
        text::lemma_first_at_is(b, LINE_FEED, b.len() as int);
        vstd::utf8::encode_utf8_valid_utf8(s);
        vstd::utf8::encode_utf8_decode_utf8(s);
        assert(all_lines(b) =~= seq![b]);
    } else {
        let head = s.take(n);
        let tail = s.skip(n + 1);
        let ended = head.push('\n');
        let h = vstd::utf8::encode_utf8(head);
        let e = vstd::utf8::encode_utf8(ended);
        let t = vstd::utf8::encode_utf8(tail);
        lemma_encoded_without_line_feed(head);
        lemma_encoded_char('\n');
        assert(s =~= ended + tail);
        assert(ended =~= head + seq!['\n']);
        lemma_encoded_in_two(ended, tail);
        lemma_encoded_in_two(head, seq!['\n']);
        assert(seq!['\n'].drop_first() =~= Seq::<char>::empty());
        assert(vstd::utf8::encode_utf8(seq!['\n']) =~= seq![LINE_FEED]) by {
            reveal_with_fuel(vstd::utf8::encode_utf8, 2);
        }
        let m = h.len() as int;
        assert(e =~= h.push(LINE_FEED));
        assert(b =~= e + t);
        assert forall|j: int| 0 <= j < m implies b[j] != LINE_FEED by {
            assert(b[j] == h[j]);
        }
        text::lemma_first_at_is(b, LINE_FEED, m);
        assert(b.take(m + 1) =~= e);
        assert(b.skip(m + 1) =~= t);
        assert(all_lines(b) =~= seq![e] + all_lines(t));
        lemma_lines_of_encoding(tail);
        vstd::utf8::encode_utf8_valid_utf8(ended);
        vstd::utf8::encode_utf8_decode_utf8(ended);
        lemma_line_end(head, '\n');
        if head.len() > 0 && head.last() == '\r' {
            lemma_line_end(head.drop_last(), '\r');
            assert(head.drop_last().push('\r') =~= head);
        }
        assert forall|i: int|
            #![trigger text::lines_of(s)[i]]
            #![trigger all_lines(b)[i]]
            0 <= i < text::lines_of(s).len() implies {
            let line = all_lines(b)[i];
            &&& vstd::utf8::valid_utf8(line)
            &&& sse_line(vstd::utf8::decode_utf8(line)) == sse_line(text::lines_of(s)[i])
        } by {
            if i > 0 {
                assert(all_lines(b)[i] == all_lines(t)[i - 1]);
                assert(text::lines_of(s)[i] == text::lines_of(tail)[i - 1]);
            }
        }
    }
}

/// What follows `data: ` on a line is its data, without the white space around
/// it, unless that is the mark that nothing follows.
pub proof fn law_data_lines(before: Seq<char>, data: Seq<char>, after: Seq<char>)
    requires
        forall|i: int| 0 <= i < before.len() ==> text::white_space(#[trigger] before[i]),
        forall|i: int| 0 <= i < after.len() ==> text::white_space(#[trigger] after[i]),
        data.len() > 0 ==> !text::white_space(data[0]) && !text::white_space(data.last()),
    ensures
        data.len() > 0 && data != "[DONE]"@ ==> sse_line("data: "@ + (before + data + after))
            == SseLine::Data(data),
        data == "[DONE]"@ ==> sse_line("data: "@ + (before + data + after)) is Done,
        data.len() == 0 ==> sse_line("data: "@ + (before + data + after)) is Nothing,
{
    reveal_strlit("[DONE]");
    let rest = before + data + after;
    let line = "data: "@ + rest;
    assert(line.subrange(0, "data: "@.len() as int) =~= "data: "@);
    assert(line.skip("data: "@.len() as int) =~= rest);
    text::law_trimming_keeps_the_text(before, data, after);
}

/// A line that does not begin with `data: ` brings nothing.
pub proof fn law_other_lines_bring_nothing(line: Seq<char>)
    requires
        line.len() < 6 || line.take(6) != seq!['d', 'a', 't', 'a', ':', ' '],
    ensures
        sse_line(line) is Nothing,
{
    reveal_strlit("data: ");
    assert("data: "@ =~= seq!['d', 'a', 't', 'a', ':', ' ']);
}

/// Of a line nothing but carriage returns and line feeds at its end is cut off,
/// and all of those are.
pub proof fn law_only_line_ends_are_cut(s: Seq<char>)
    ensures
        chomped(s).len() <= s.len(),
        chomped(s) == s.take(chomped(s).len() as int),
        forall|i: int| chomped(s).len() <= i < s.len() ==> #[trigger] s[i] == '\r' || s[i] == '\n',
        chomped(s).len() > 0 ==> chomped(s).last() != '\r' && chomped(s).last() != '\n',
    decreases s.len(),
{
    if s.len() > 0 && (s.last() == '\r' || s.last() == '\n') {
        let rest = s.drop_last();
        law_only_line_ends_are_cut(rest);
        let n = chomped(s).len() as int;
        assert(rest.take(n) =~= s.take(n));
        assert forall|i: int| n <= i < s.len() implies #[trigger] s[i] == '\r' || s[i] == '\n' by {
            if i < rest.len() {
                assert(s[i] == rest[i]);
            }
        }
    } else {
        assert(s.take(s.len() as int) =~= s);
    }
}

/// The first line of bytes ends at the first line feed, and the lines after it are
/// those of what follows; bytes without a line feed are no complete line.
pub proof fn law_lines_are_cut_at_line_feeds(line: Seq<u8>, rest: Seq<u8>)
    requires
        forall|i: int| 0 <= i < line.len() ==> line[i] != 10,
    ensures
        complete_lines(line.push(10) + rest) == seq![line.push(10)] + complete_lines(rest),
        remainder(line.push(10) + rest) == remainder(rest),
        complete_lines(line).len() == 0,
        remainder(line) == line,
{
    let all = line.push(10) + rest;
    let n = line.len() as int;
    assert forall|j: int| 0 <= j < n implies all[j] != LINE_FEED by {
        assert(all[j] == line[j]);
    }
    text::lemma_first_at_is(all, LINE_FEED, n);
    text::lemma_first_at_is(line, LINE_FEED, n);
    assert(all.take(n + 1) =~= line.push(10));
    assert(all.skip(n + 1) =~= rest);
}

} // verus!
