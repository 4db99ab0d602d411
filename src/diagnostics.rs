use vstd::prelude::*;
use vstd::utf8::encode_utf8;
use crate::errors::{message_text, ErrorKind, ParseErrors};
use crate::lex::{byte_pos, lemma_byte_range};
use crate::text::{byte_offsets, chars_of, string_of};
use crate::tokens::Span;

verus! {

/// Number of newline bytes in `b`.
pub open spec fn newlines(b: Seq<u8>) -> nat
    decreases b.len(),
{
    if b.len() == 0 {
        0
    } else {
        newlines(b.drop_last()) + if b.last() == 10u8 {
            1nat
        } else {
            0nat
        }
    }
}

/// The byte offset where the line that holds byte offset `i` starts.
pub open spec fn line_start(b: Seq<u8>, i: int) -> int
    decreases i,
{
    if i <= 0 {
        0
    } else if b[i - 1] == 10u8 {
        i
    } else {
        line_start(b, i - 1)
    }
}

/// 1-based line of byte offset `i`.
pub open spec fn line_of(b: Seq<u8>, i: int) -> int {
    1 + newlines(b.subrange(0, i)) as int
}

/// 1-based column of byte offset `i`, counted in bytes.
pub open spec fn column_of(b: Seq<u8>, i: int) -> int {
    1 + i - line_start(b, i)
}

/// Relies on line_col's `LineColLookup::get`: the 1-based line and the 1-based
/// byte column of a byte offset no greater than the text's length.
#[verifier::external_body]
fn line_col_at(src: &String, index: usize) -> (r: (usize, usize))
    requires
        index <= encode_utf8(src@).len(),
    ensures
        r.0 == line_of(encode_utf8(src@), index as int),
        r.1 == column_of(encode_utf8(src@), index as int),
{
    line_col::LineColLookup::new(src.as_str()).get(index)
}

/// The first character position from `k` on whose byte offset is at least
/// `b`, or the length of `s`.
pub open spec fn char_from(s: Seq<char>, b: int, k: int) -> int
    decreases s.len() - k,
{
    if k < 0 || k >= s.len() || byte_pos(s, k) >= b {
        k
    } else {
        char_from(s, b, k + 1)
    }
}

/// A larger byte offset gives no earlier character position.
pub proof fn lemma_char_from_monotone(s: Seq<char>, b1: int, b2: int, k: int)
    requires
        b1 <= b2,
        0 <= k,
    ensures
        k <= char_from(s, b1, k) <= char_from(s, b2, k),
    decreases s.len() - k,
{
    if k < s.len() && byte_pos(s, k) < b1 {
        lemma_char_from_monotone(s, b1, b2, k + 1);
    } else if k < s.len() && byte_pos(s, k) < b2 {
        lemma_char_from_monotone(s, b2, b2, k + 1);
    }
}

/// Where the excerpt of a diagnostic starts and ends, in bytes: from the
/// origin's start to the end of the offending span, kept inside the source.
pub open spec fn excerpt_bounds(len: int, origin: Span, at: Span) -> (int, int) {
    let lo = if origin.start <= len {
        origin.start as int
    } else {
        len
    };
    let hi = if at.end <= lo {
        lo
    } else if at.end <= len {
        at.end as int
    } else {
        len
    };
    (lo, hi)
}

/// The mark under position `j`: `with` inside `span`, a space elsewhere.
pub open spec fn mark(span: Span, with: char, j: int) -> char {
    if span.start <= j < span.end {
        with
    } else {
        ' '
    }
}

/// `d` renders its error against the source `src`: the excerpt holds the
/// characters that start from the origin's start to the end of the offending
/// span, a mark stands under each of them that starts inside the offending
/// span, the position is that of the origin's start (`(0, 0)` where the
/// origin lies outside the source), and the message is the error's.
pub open spec fn rendered(src: Seq<char>, d: Diagnostic) -> bool {
    let bytes = encode_utf8(src);
    let (lo, hi) = excerpt_bounds(bytes.len() as int, d.origin, d.at);
    let (kl, kh) = (char_from(src, lo, 0), char_from(src, hi, 0));
    let inside = d.origin.start < bytes.len() && d.origin.end <= bytes.len();
    &&& d.excerpt@ == src.subrange(kl, kh)
    &&& d.highlight@.len() == kh - kl
    &&& (forall|j: int|
        0 <= j < kh - kl ==> d.highlight@[j] == mark(d.at, '^', byte_pos(src, kl + j)))
    &&& (inside ==> d.line == line_of(bytes, d.origin.start as int) && d.column == column_of(
        bytes,
        d.origin.start as int,
    ))
    &&& (!inside ==> d.line == 0 && d.column == 0)
    &&& (d.error matches ErrorKind::Parse(k) && d.message@ == message_text(k))
}

/// A rendered error: the source excerpt, the line of marks under it, where
/// the error is, and its message.
pub struct Diagnostic {
    pub error: ErrorKind,
    pub origin: Span,
    pub at: Span,
    pub excerpt: String,
    pub highlight: String,
    pub line: usize,
    pub column: usize,
    pub message: String,
    pub fatal: bool,
}

/// Renders errors against one source text.
pub struct ErrorClient {
    source_text: String,
    chars: Vec<char>,
    offsets: Vec<usize>,
}

impl ErrorClient {
    pub closed spec fn source(&self) -> Seq<char> {
        self.source_text@
    }

    pub closed spec fn wf(&self) -> bool {
        &&& self.chars@ == self.source_text@
        &&& self.offsets@.len() == self.chars@.len() + 1
        &&& forall|i: int|
            0 <= i <= self.chars@.len() ==> #[trigger] self.offsets@[i] == byte_pos(self.chars@, i)
    }

    pub fn new(source: &String) -> (r: ErrorClient)
        ensures
            r.wf(),
            r.source() == source@,
    {
        ErrorClient {
            source_text: source.clone(),
            chars: chars_of(source.as_str()),
            offsets: byte_offsets(source.as_str()),
        }
    }

    /// The length of the source in bytes.
    fn byte_len(&self) -> (r: usize)
        requires
            self.wf(),
        ensures
            r == encode_utf8(self.source()).len(),
    {
        proof {
            lemma_byte_range(self.chars@, 0, self.chars@.len() as int);
        }
        self.offsets[self.chars.len()]
    }

    /// Whether `span` lies within the source and starts before its end.
    pub fn is_inside_bounds(&self, span: &Span) -> (r: bool)
        requires
            self.wf(),
        ensures
            r == (span.start < encode_utf8(self.source()).len() && span.end <= encode_utf8(
                self.source(),
            ).len()),
    {
        let n = self.byte_len();
        span.start < n && span.end <= n
    }

    /// The first character position whose byte offset is at least `b`.
    fn char_at_byte(&self, b: usize) -> (r: usize)
        requires
            self.wf(),
        ensures
            r == char_from(self.source(), b as int, 0),
            r <= self.source().len(),
    {
        let mut k: usize = 0;
        while k < self.chars.len() && self.offsets[k] < b
            invariant
                self.wf(),
                k <= self.chars.len(),
                char_from(self.chars@, b as int, 0) == char_from(self.chars@, b as int, k as int),
            decreases self.chars.len() - k,
        {
            k = k + 1;
        }
        k
    }

    /// The marks under the characters from `lo` to `hi`.
    fn create_spanned_chars(&self, span: &Span, with: char, lo: usize, hi: usize) -> (r: String)
        requires
            self.wf(),
            lo <= hi <= self.source().len(),
        ensures
            r@.len() == hi - lo,
            forall|j: int|
                0 <= j < hi - lo ==> r@[j] == mark(*span, with, byte_pos(self.source(), lo + j)),
    {
        let mut v: Vec<char> = Vec::new();
        let mut j: usize = lo;
        while j < hi
            invariant
                self.wf(),
                lo <= j <= hi <= self.chars@.len(),
                v@.len() == j - lo,
                forall|k: int|
                    0 <= k < j - lo ==> v@[k] == mark(*span, with, byte_pos(self.chars@, lo + k)),
            decreases hi - j,
        {
            let b = self.offsets[j];
            if span.start <= b && b < span.end {
                v.push(with);
            } else {
                v.push(' ');
            }
            j = j + 1;
        }
        string_of(v.as_slice())
    }

    /// Renders a parse error that starts at `origin` and is found at `at`.
    /// Where `origin` lies outside the source the position is `(0, 0)`.
    pub fn render(&self, kind: ParseErrors, origin: &Span, at: &Span, fatal: bool) -> (r: Diagnostic)
        requires
            self.wf(),
        ensures
            rendered(self.source(), r),
            r.error == ErrorKind::Parse(kind),
            r.origin == *origin,
            r.at == *at,
            r.fatal == fatal,
    {
        let message = kind.to_string();
        let (line, column) = if self.is_inside_bounds(origin) {
            line_col_at(&self.source_text, origin.start)
        } else {
            (0, 0)
        };
        let len = self.byte_len();
        let lo = if origin.start <= len {
            origin.start
        } else {
            len
        };
        let hi = if at.end <= lo {
            lo
        } else if at.end <= len {
            at.end
        } else {
            len
        };
        let kl = self.char_at_byte(lo);
        let kh = self.char_at_byte(hi);
        proof {
            lemma_char_from_monotone(self.chars@, lo as int, hi as int, 0);
        }
        let mut v: Vec<char> = Vec::new();
        let mut j: usize = kl;
        while j < kh
            invariant
                self.wf(),
                kl <= j <= kh <= self.chars.len(),
                v@ == self.chars@.subrange(kl as int, j as int),
            decreases kh - j,
        {
            v.push(self.chars[j]);
            j = j + 1;
            assert(v@ =~= self.chars@.subrange(kl as int, j as int));
        }
        let excerpt = string_of(v.as_slice());
        let highlight = self.create_spanned_chars(at, '^', kl, kh);
        Diagnostic {
            error: ErrorKind::Parse(kind),
            origin: *origin,
            at: *at,
            excerpt,
            highlight,
            line,
            column,
            message,
            fatal,
        }
    }
}

} // verus!
