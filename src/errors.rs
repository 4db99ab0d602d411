use vstd::prelude::*;
use crate::text::{push_chars, push_str, string_of};
use crate::tokens::{Comment, Tokens};

verus! {

/// The errors of the compiler, parse errors apart from type errors.
#[derive(Debug, Clone)]
pub enum ErrorKind {
    Parse(ParseErrors),
    Type(TypeErrors),
}

#[derive(Clone, Debug)]
pub enum ParseErrors {
    /// The first kind was expected after the second, and the third came.
    ExpectedAfterButReceived(Tokens, Tokens, Tokens),
    /// The input ended right after a token of this kind.
    UnexpectedEndAfter(Tokens),
}

/// Reserved for the type checker, which reports nothing yet: it carries no
/// detail.
#[derive(Clone, Debug)]
pub struct TypeErrors {}

/// What std's `Debug` writes for a string: the text in double quotes, with escapes.
pub uninterp spec fn quoted_form(s: Seq<char>) -> Seq<char>;

/// Relies on std's `Debug` for `str`, which quotes and escapes the text.
#[verifier::external_body]
fn debug_quoted(s: &String) -> (r: String)
    ensures
        r@ == quoted_form(s@),
{
    format!("{:?}", s)
}

/// `d` without its leading zeros.
pub open spec fn strip_leading_zeros(d: Seq<char>) -> Seq<char>
    decreases d.len(),
{
    if d.len() > 0 && d[0] == '0' {
        strip_leading_zeros(d.drop_first())
    } else {
        d
    }
}

/// `d` without its trailing zeros.
pub open spec fn strip_trailing_zeros(d: Seq<char>) -> Seq<char>
    decreases d.len(),
{
    if d.len() > 0 && d.last() == '0' {
        strip_trailing_zeros(d.drop_last())
    } else {
        d
    }
}

pub open spec fn or_zero(d: Seq<char>) -> Seq<char> {
    if d.len() == 0 {
        seq!['0']
    } else {
        d
    }
}

/// The position of the first period in `b` at or after `i`, or the length of `b`.
pub open spec fn period_from(b: Seq<char>, i: int) -> int
    decreases b.len() - i,
{
    if i < 0 || i >= b.len() {
        b.len() as int
    } else if b[i] == '.' {
        i
    } else {
        period_from(b, i + 1)
    }
}

/// The value of a numeric literal in decimal notation: the sign, the integer
/// part without leading zeros, a period, the fraction without trailing zeros
/// (each part at least `0`). `123` is written `123.0`, `-.50` is `-0.5`.
pub open spec fn decimal_form(t: Seq<char>) -> Seq<char> {
    let neg = t.len() > 0 && t[0] == '-';
    let b = if neg {
        t.drop_first()
    } else {
        t
    };
    let dot = period_from(b, 0);
    let int_part = or_zero(strip_leading_zeros(b.subrange(0, dot)));
    let frac = if dot < b.len() {
        b.subrange(dot + 1, b.len() as int)
    } else {
        Seq::empty()
    };
    let sign = if neg {
        seq!['-']
    } else {
        Seq::empty()
    };
    sign + int_part + seq!['.'] + or_zero(strip_trailing_zeros(frac))
}

/// The structural text of a token kind, as `Debug` writes the variant.
pub open spec fn debug_text(k: Tokens) -> Seq<char> {
    match k {
        Tokens::Ident(t) => "Ident("@ + quoted_form(t@) + ")"@,
        Tokens::String(t) => "String("@ + quoted_form(t@) + ")"@,
        Tokens::Number(t) => "Number("@ + decimal_form(t@) + ")"@,
        Tokens::Unknown(t) => "Unknown("@ + quoted_form(t@) + ")"@,
        Tokens::Comment(Comment::SingleLine(t)) => "Comment(SingleLine("@ + quoted_form(t@) + "))"@,
        Tokens::Comment(Comment::MultiLine(t)) => "Comment(MultiLine("@ + quoted_form(t@) + "))"@,
        Tokens::Local => "Local"@,
        Tokens::Const => "Const"@,
        Tokens::Class => "Class"@,
        Tokens::Public => "Public"@,
        Tokens::Private => "Private"@,
        Tokens::Type => "Type"@,
        Tokens::Interface => "Interface"@,
        Tokens::Extends => "Extends"@,
        Tokens::Implements => "Implements"@,
        Tokens::Function => "Function"@,
        Tokens::If => "If"@,
        Tokens::Then => "Then"@,
        Tokens::ElseIf => "ElseIf"@,
        Tokens::Else => "Else"@,
        Tokens::For => "For"@,
        Tokens::In => "In"@,
        Tokens::Do => "Do"@,
        Tokens::While => "While"@,
        Tokens::Repeat => "Repeat"@,
        Tokens::Until => "Until"@,
        Tokens::Break => "Break"@,
        Tokens::Return => "Return"@,
        Tokens::Goto => "Goto"@,
        Tokens::Switch => "Switch"@,
        Tokens::End => "End"@,
        Tokens::And => "And"@,
        Tokens::Or => "Or"@,
        Tokens::Not => "Not"@,
        Tokens::True => "True"@,
        Tokens::False => "False"@,
        Tokens::Nil => "Nil"@,
        Tokens::Assign => "Assign"@,
        Tokens::EQ => "EQ"@,
        Tokens::NEQ => "NEQ"@,
        Tokens::Arrow => "Arrow"@,
        Tokens::LT => "LT"@,
        Tokens::LTE => "LTE"@,
        Tokens::GT => "GT"@,
        Tokens::GTE => "GTE"@,
        Tokens::SHL => "SHL"@,
        Tokens::SHR => "SHR"@,
        Tokens::BitAnd => "BitAnd"@,
        Tokens::BitOr => "BitOr"@,
        Tokens::BitXor => "BitXor"@,
        Tokens::Plus => "Plus"@,
        Tokens::Minus => "Minus"@,
        Tokens::Mul => "Mul"@,
        Tokens::Div => "Div"@,
        Tokens::IntDiv => "IntDiv"@,
        Tokens::Mod => "Mod"@,
        Tokens::Pow => "Pow"@,
        Tokens::Hash => "Hash"@,
        Tokens::Concat => "Concat"@,
        Tokens::Dots => "Dots"@,
        Tokens::LParen => "LParen"@,
        Tokens::RParen => "RParen"@,
        Tokens::LBracket => "LBracket"@,
        Tokens::RBracket => "RBracket"@,
        Tokens::LCurly => "LCurly"@,
        Tokens::RCurly => "RCurly"@,
        Tokens::Comma => "Comma"@,
        Tokens::Colon => "Colon"@,
        Tokens::DBColon => "DBColon"@,
        Tokens::Period => "Period"@,
        Tokens::SemiColon => "SemiColon"@,
        Tokens::NewLine => "NewLine"@,
    }
}

/// The phrase that names a token kind in messages.
pub open spec fn phrase(k: Tokens) -> Seq<char> {
    match k {
        Tokens::Ident(_) => "identifier"@,
        Tokens::String(_) => "string literal"@,
        Tokens::Class => "class declaration"@,
        _ => debug_text(k),
    }
}

pub open spec fn is_vowel(c: char) -> bool {
    c == 'a' || c == 'e' || c == 'i' || c == 'o' || c == 'u' || c == 'A' || c == 'E' || c == 'I'
        || c == 'O' || c == 'U'
}

/// `s` with the indefinite article that its first letter calls for.
pub open spec fn with_article(s: Seq<char>, upper_first: bool) -> Seq<char> {
    let article = if is_vowel(s[0]) {
        if upper_first {
            "An "@
        } else {
            "an "@
        }
    } else if upper_first {
        "A "@
    } else {
        "a "@
    };
    article + s
}

pub open spec fn upper_ascii(c: char) -> char {
    if 'a' <= c <= 'z' {
        ((c as u32) - 32) as char
    } else {
        c
    }
}

/// `s` with its first character in upper case.
pub open spec fn capitalized(s: Seq<char>) -> Seq<char> {
    seq![upper_ascii(s[0])] + s.drop_first()
}

/// The phrase of `k`, with an article when `add_prefix` holds.
pub open spec fn disp_text(k: Tokens, upper_first: bool, add_prefix: bool) -> Seq<char> {
    if add_prefix {
        with_article(phrase(k), upper_first)
    } else {
        phrase(k)
    }
}

/// The message of a parse error.
pub open spec fn message_text(e: ParseErrors) -> Seq<char> {
    match e {
        ParseErrors::ExpectedAfterButReceived(exp, after, recv) => capitalized(
            disp_text(exp, true, false),
        ) + " expected after "@ + disp_text(after, false, true) + ", but received "@ + disp_text(
            recv,
            false,
            true,
        ) + "."@,
        ParseErrors::UnexpectedEndAfter(after) => "Unexpected end of input after "@ + disp_text(
            after,
            false,
            true,
        ) + "."@,
    }
}

/// The first character of every phrase is ASCII and is no space.
pub proof fn lemma_phrase_starts_ascii(k: Tokens)
    ensures
        phrase(k).len() > 0,
        (phrase(k)[0] as u32) < 128,
{
    reveal_strlit("identifier");
    reveal_strlit("string literal");
    reveal_strlit("class declaration");
    reveal_strlit("Ident(");
    reveal_strlit("String(");
    reveal_strlit("Number(");
    reveal_strlit("Unknown(");
    reveal_strlit("Comment(SingleLine(");
    reveal_strlit("Comment(MultiLine(");
    reveal_strlit("Local");
    reveal_strlit("Const");
    reveal_strlit("Class");
    reveal_strlit("Public");
    reveal_strlit("Private");
    reveal_strlit("Type");
    reveal_strlit("Interface");
    reveal_strlit("Extends");
    reveal_strlit("Implements");
    reveal_strlit("Function");
    reveal_strlit("If");
    reveal_strlit("Then");
    reveal_strlit("ElseIf");
    reveal_strlit("Else");
    reveal_strlit("For");
    reveal_strlit("In");
    reveal_strlit("Do");
    reveal_strlit("While");
    reveal_strlit("Repeat");
    reveal_strlit("Until");
    reveal_strlit("Break");
    reveal_strlit("Return");
    reveal_strlit("Goto");
    reveal_strlit("Switch");
    reveal_strlit("End");
    reveal_strlit("And");
    reveal_strlit("Or");
    reveal_strlit("Not");
    reveal_strlit("True");
    reveal_strlit("False");
    reveal_strlit("Nil");
    reveal_strlit("Assign");
    reveal_strlit("EQ");
    reveal_strlit("NEQ");
    reveal_strlit("Arrow");
    reveal_strlit("LT");
    reveal_strlit("LTE");
    reveal_strlit("GT");
    reveal_strlit("GTE");
    reveal_strlit("SHL");
    reveal_strlit("SHR");
    reveal_strlit("BitAnd");
    reveal_strlit("BitOr");
    reveal_strlit("BitXor");
    reveal_strlit("Plus");
    reveal_strlit("Minus");
    reveal_strlit("Mul");
    reveal_strlit("Div");
    reveal_strlit("IntDiv");
    reveal_strlit("Mod");
    reveal_strlit("Pow");
    reveal_strlit("Hash");
    reveal_strlit("Concat");
    reveal_strlit("Dots");
    reveal_strlit("LParen");
    reveal_strlit("RParen");
    reveal_strlit("LBracket");
    reveal_strlit("RBracket");
    reveal_strlit("LCurly");
    reveal_strlit("RCurly");
    reveal_strlit("Comma");
    reveal_strlit("Colon");
    reveal_strlit("DBColon");
    reveal_strlit("Period");
    reveal_strlit("SemiColon");
    reveal_strlit("NewLine");
}

/// Removes leading zeros.
fn strip_leading(d: &Vec<char>) -> (r: Vec<char>)
    ensures
        r@ == strip_leading_zeros(d@),
{
    let mut i: usize = 0;
    assert(d@.subrange(0, d.len() as int) =~= d@);
    while i < d.len() && d[i] == '0'
        invariant
            i <= d.len(),
            strip_leading_zeros(d@) == strip_leading_zeros(d@.subrange(i as int, d.len() as int)),
        decreases d.len() - i,
    {
        assert(d@.subrange(i as int, d.len() as int).drop_first() =~= d@.subrange(
            i + 1,
            d.len() as int,
        ));
        i = i + 1;
    }
    let mut r: Vec<char> = Vec::new();
    let mut j: usize = i;
    while j < d.len()
        invariant
            i <= j <= d.len(),
            r@ == d@.subrange(i as int, j as int),
        decreases d.len() - j,
    {
        r.push(d[j]);
        j = j + 1;
        assert(r@ =~= d@.subrange(i as int, j as int));
    }
    r
}

/// Removes trailing zeros.
fn strip_trailing(d: &Vec<char>) -> (r: Vec<char>)
    ensures
        r@ == strip_trailing_zeros(d@),
{
    let mut n: usize = d.len();
    assert(d@.subrange(0, d.len() as int) =~= d@);
    while n > 0 && d[n - 1] == '0'
        invariant
            n <= d.len(),
            strip_trailing_zeros(d@) == strip_trailing_zeros(d@.subrange(0, n as int)),
        decreases n,
    {
        assert(d@.subrange(0, n as int).drop_last() =~= d@.subrange(0, n - 1));
        n = n - 1;
    }
    let mut r: Vec<char> = Vec::new();
    let mut j: usize = 0;
    while j < n
        invariant
            j <= n <= d.len(),
            r@ == d@.subrange(0, j as int),
        decreases n - j,
    {
        r.push(d[j]);
        j = j + 1;
        assert(r@ =~= d@.subrange(0, j as int));
    }
    r
}

fn push_or_zero(v: &mut Vec<char>, d: &Vec<char>)
    ensures
        final(v)@ == old(v)@ + or_zero(d@),
{
    if d.len() == 0 {
        v.push('0');
        assert(final(v)@ =~= old(v)@ + seq!['0']);
    } else {
        push_chars(v, d);
    }
}

/// Appends the decimal form of a numeric literal.
fn push_decimal(v: &mut Vec<char>, t: &String)
    ensures
        final(v)@ == old(v)@ + decimal_form(t@),
{
    let all = crate::text::chars_of(t.as_str());
    let neg = all.len() > 0 && all[0] == '-';
    let from: usize = if neg {
        1
    } else {
        0
    };
    let mut int_digits: Vec<char> = Vec::new();
    let mut frac_digits: Vec<char> = Vec::new();
    let ghost b = if neg {
        all@.drop_first()
    } else {
        all@
    };
    assert(b =~= all@.subrange(from as int, all.len() as int));
    let mut i: usize = from;
    while i < all.len() && all[i] != '.'
        invariant
            from <= i <= all.len(),
            b == all@.subrange(from as int, all.len() as int),
            period_from(b, 0) == period_from(b, i - from),
            int_digits@ == b.subrange(0, i - from),
        decreases all.len() - i,
    {
        int_digits.push(all[i]);
        i = i + 1;
        assert(int_digits@ =~= b.subrange(0, i - from));
    }
    let ghost dot = i - from;
    assert(period_from(b, 0) == dot);
    if i < all.len() {
        let mut j: usize = i + 1;
        while j < all.len()
            invariant
                i < j <= all.len(),
                frac_digits@ == all@.subrange(i + 1, j as int),
            decreases all.len() - j,
        {
            frac_digits.push(all[j]);
            j = j + 1;
            assert(frac_digits@ =~= all@.subrange(i + 1, j as int));
        }
        assert(frac_digits@ =~= b.subrange(dot + 1, b.len() as int));
    } else {
        assert(frac_digits@ =~= Seq::<char>::empty());
    }
    let ghost v0 = v@;
    if neg {
        v.push('-');
    }
    let lead = strip_leading(&int_digits);
    push_or_zero(v, &lead);
    v.push('.');
    let trail = strip_trailing(&frac_digits);
    push_or_zero(v, &trail);
    assert(v@ =~= v0 + decimal_form(t@));
}

/// The structural text of a token kind.
pub fn debug_string(k: &Tokens) -> (r: String)
    ensures
        r@ == debug_text(*k),
{
    let mut v: Vec<char> = Vec::new();
    match k {
        Tokens::Ident(t) => {
            push_str(&mut v, "Ident(");
            push_str(&mut v, debug_quoted(t).as_str());
            push_str(&mut v, ")");
        },
        Tokens::String(t) => {
            push_str(&mut v, "String(");
            push_str(&mut v, debug_quoted(t).as_str());
            push_str(&mut v, ")");
        },
        Tokens::Number(t) => {
            push_str(&mut v, "Number(");
            push_decimal(&mut v, t);
            push_str(&mut v, ")");
        },
        Tokens::Unknown(t) => {
            push_str(&mut v, "Unknown(");
            push_str(&mut v, debug_quoted(t).as_str());
            push_str(&mut v, ")");
        },
        Tokens::Comment(Comment::SingleLine(t)) => {
            push_str(&mut v, "Comment(SingleLine(");
            push_str(&mut v, debug_quoted(t).as_str());
            push_str(&mut v, "))");
        },
        Tokens::Comment(Comment::MultiLine(t)) => {
            push_str(&mut v, "Comment(MultiLine(");
            push_str(&mut v, debug_quoted(t).as_str());
            push_str(&mut v, "))");
        },
        Tokens::Local => push_str(&mut v, "Local"),
        Tokens::Const => push_str(&mut v, "Const"),
        Tokens::Class => push_str(&mut v, "Class"),
        Tokens::Public => push_str(&mut v, "Public"),
        Tokens::Private => push_str(&mut v, "Private"),
        Tokens::Type => push_str(&mut v, "Type"),
        Tokens::Interface => push_str(&mut v, "Interface"),
        Tokens::Extends => push_str(&mut v, "Extends"),
        Tokens::Implements => push_str(&mut v, "Implements"),
        Tokens::Function => push_str(&mut v, "Function"),
        Tokens::If => push_str(&mut v, "If"),
        Tokens::Then => push_str(&mut v, "Then"),
        Tokens::ElseIf => push_str(&mut v, "ElseIf"),
        Tokens::Else => push_str(&mut v, "Else"),
        Tokens::For => push_str(&mut v, "For"),
        Tokens::In => push_str(&mut v, "In"),
        Tokens::Do => push_str(&mut v, "Do"),
        Tokens::While => push_str(&mut v, "While"),
        Tokens::Repeat => push_str(&mut v, "Repeat"),
        Tokens::Until => push_str(&mut v, "Until"),
        Tokens::Break => push_str(&mut v, "Break"),
        Tokens::Return => push_str(&mut v, "Return"),
        Tokens::Goto => push_str(&mut v, "Goto"),
        Tokens::Switch => push_str(&mut v, "Switch"),
        Tokens::End => push_str(&mut v, "End"),
        Tokens::And => push_str(&mut v, "And"),
        Tokens::Or => push_str(&mut v, "Or"),
        Tokens::Not => push_str(&mut v, "Not"),
        Tokens::True => push_str(&mut v, "True"),
        Tokens::False => push_str(&mut v, "False"),
        Tokens::Nil => push_str(&mut v, "Nil"),
        Tokens::Assign => push_str(&mut v, "Assign"),
        Tokens::EQ => push_str(&mut v, "EQ"),
        Tokens::NEQ => push_str(&mut v, "NEQ"),
        Tokens::Arrow => push_str(&mut v, "Arrow"),
        Tokens::LT => push_str(&mut v, "LT"),
        Tokens::LTE => push_str(&mut v, "LTE"),
        Tokens::GT => push_str(&mut v, "GT"),
        Tokens::GTE => push_str(&mut v, "GTE"),
        Tokens::SHL => push_str(&mut v, "SHL"),
        Tokens::SHR => push_str(&mut v, "SHR"),
        Tokens::BitAnd => push_str(&mut v, "BitAnd"),
        Tokens::BitOr => push_str(&mut v, "BitOr"),
        Tokens::BitXor => push_str(&mut v, "BitXor"),
        Tokens::Plus => push_str(&mut v, "Plus"),
        Tokens::Minus => push_str(&mut v, "Minus"),
        Tokens::Mul => push_str(&mut v, "Mul"),
        Tokens::Div => push_str(&mut v, "Div"),
        Tokens::IntDiv => push_str(&mut v, "IntDiv"),
        Tokens::Mod => push_str(&mut v, "Mod"),
        Tokens::Pow => push_str(&mut v, "Pow"),
        Tokens::Hash => push_str(&mut v, "Hash"),
        Tokens::Concat => push_str(&mut v, "Concat"),
        Tokens::Dots => push_str(&mut v, "Dots"),
        Tokens::LParen => push_str(&mut v, "LParen"),
        Tokens::RParen => push_str(&mut v, "RParen"),
        Tokens::LBracket => push_str(&mut v, "LBracket"),
        Tokens::RBracket => push_str(&mut v, "RBracket"),
        Tokens::LCurly => push_str(&mut v, "LCurly"),
        Tokens::RCurly => push_str(&mut v, "RCurly"),
        Tokens::Comma => push_str(&mut v, "Comma"),
        Tokens::Colon => push_str(&mut v, "Colon"),
        Tokens::DBColon => push_str(&mut v, "DBColon"),
        Tokens::Period => push_str(&mut v, "Period"),
        Tokens::SemiColon => push_str(&mut v, "SemiColon"),
        Tokens::NewLine => push_str(&mut v, "NewLine"),
    }
    assert(v@ =~= debug_text(*k));
    string_of(v.as_slice())
}

/// A token kind as a phrase for messages: `Ident` is "identifier", `String`
/// is "string literal", `Class` is "class declaration", any other kind its
/// structural text. With `add_prefix` the phrase gets its article, capitalised
/// when `upper_first` holds.
pub fn disp_enum(val: &Tokens, upper_first: bool, add_prefix: bool) -> (r: String)
    ensures
        r@ == disp_text(*val, upper_first, add_prefix),
{
    let matched = match val {
        Tokens::Ident(_) => "identifier".to_owned(),
        Tokens::String(_) => "string literal".to_owned(),
        Tokens::Class => "class declaration".to_owned(),
        _ => debug_string(val),
    };
    proof {
        lemma_phrase_starts_ascii(*val);
    }
    if add_prefix {
        a_or_an(matched, upper_first)
    } else {
        matched
    }
}

/// `s` with its first character in upper case; that character is ASCII.
pub fn str_cap(s: String) -> (r: String)
    requires
        s@.len() > 0,
        (s@[0] as u32) < 128,
    ensures
        r@ == capitalized(s@),
{
    let cs = crate::text::chars_of(s.as_str());
    let mut v: Vec<char> = Vec::new();
    let c = cs[0];
    let up = if 'a' <= c && c <= 'z' {
        ((c as u32) - 32) as u8 as char
    } else {
        c
    };
    assert(up == upper_ascii(c)) by {
        if 'a' <= c && c <= 'z' {
            assert(((c as u32) - 32) < 128);
        }
    }
    v.push(up);
    let mut i: usize = 1;
    while i < cs.len()
        invariant
            1 <= i <= cs.len(),
            cs@ == s@,
            v@ == seq![upper_ascii(s@[0])] + s@.subrange(1, i as int),
        decreases cs.len() - i,
    {
        v.push(cs[i]);
        i = i + 1;
        assert(v@ =~= seq![upper_ascii(s@[0])] + s@.subrange(1, i as int));
    }
    assert(s@.drop_first() =~= s@.subrange(1, s@.len() as int));
    string_of(v.as_slice())
}

/// `str` after the article "a" or "an" (capitalised when `upper_first`
/// holds), chosen by whether its first letter is a vowel.
pub fn a_or_an(str: String, upper_first: bool) -> (r: String)
    requires
        str@.len() > 0,
    ensures
        r@ == with_article(str@, upper_first),
{
    let cs = crate::text::chars_of(str.as_str());
    let c = cs[0];
    let vowel = c == 'a' || c == 'e' || c == 'i' || c == 'o' || c == 'u' || c == 'A' || c == 'E'
        || c == 'I' || c == 'O' || c == 'U';
    let mut v: Vec<char> = Vec::new();
    if vowel {
        if upper_first {
            push_str(&mut v, "An ");
        } else {
            push_str(&mut v, "an ");
        }
    } else if upper_first {
        push_str(&mut v, "A ");
    } else {
        push_str(&mut v, "a ");
    }
    push_chars(&mut v, &cs);
    string_of(v.as_slice())
}

impl ParseErrors {
    /// The message of the error, as the diagnostic shows it.
    pub fn to_string(&self) -> (r: String)
        ensures
            r@ == message_text(*self),
    {
        let mut v: Vec<char> = Vec::new();
        match self {
            ParseErrors::ExpectedAfterButReceived(exp, after, recv) => {
                proof {
                    lemma_phrase_starts_ascii(*exp);
                }
                let first = str_cap(disp_enum(exp, true, false));
                push_str(&mut v, first.as_str());
                push_str(&mut v, " expected after ");
                push_str(&mut v, disp_enum(after, false, true).as_str());
                push_str(&mut v, ", but received ");
                push_str(&mut v, disp_enum(recv, false, true).as_str());
                push_str(&mut v, ".");
            },
            ParseErrors::UnexpectedEndAfter(after) => {
                push_str(&mut v, "Unexpected end of input after ");
                push_str(&mut v, disp_enum(after, false, true).as_str());
                push_str(&mut v, ".");
            },
        }
        string_of(v.as_slice())
    }
}

} // verus!
