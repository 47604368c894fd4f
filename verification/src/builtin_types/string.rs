//! The class `String`.

use vstd::prelude::*;
use vstd::string::StringExecFns;
use crate::builtin_types::any::{new_object, object_class};
use crate::builtin_types::integer::{integer_of, integer_view, new_integer};
use crate::builtin_types::native_function::{
    add_member, arity_error, arity_text, member, operand_error, operand_text, receiver,
    receiver_error, receiver_text, result_view,
};
use crate::env::{Bindings, Environment};
use crate::lexer::{
    digits_end, digits_value, is_digit, lemma_digits_grow, lemma_digits_run, scan_digits,
};
use crate::obj::{
    BaseObject, ClassView, Native, ObjResult, ObjectView, ValueType, ValueView, objects_view,
};
use crate::text::{chars_of, int_text, push_int};

verus! {

/// The members of `String`: `i`, the number that the string writes; `len`;
/// `+`, also called `add`; and `get_index`.
pub open spec fn string_members() -> Bindings {
    Seq::empty().push(member("i"@, "String.i"@, Native::StringParseInt)).push(
        member("len"@, "String.len"@, Native::StringLen),
    ).push(member("+"@, "String.+"@, Native::StringAdd)).push(
        member("add"@, "String.+"@, Native::StringAdd),
    ).push(member("get_index"@, "String.get_index"@, Native::StringGetIndex))
}

/// The class `String`.
pub open spec fn string_class() -> ClassView {
    ClassView {
        name: "String"@,
        vars: string_members(),
        super_class: Some(Box::new(object_class())),
    }
}

/// The string object for `s`.
pub open spec fn string_view(s: Seq<char>) -> ObjectView {
    ObjectView { class: string_class(), value: ValueView::Str(s), parent: None }
}

/// The number that `s` writes: an optional sign, then digits and nothing
/// else, for a number that fits in 64 bits.
pub open spec fn parse_integer(s: Seq<char>) -> Option<i64> {
    let start: int = if s.len() > 0 && (s[0] == '-' || s[0] == '+') {
        1
    } else {
        0
    };
    let v = digits_value(s, start, s.len() as int);
    let n = if s.len() > 0 && s[0] == '-' {
        -v
    } else {
        v
    };
    if start >= s.len() || digits_end(s, start) != s.len() {
        None
    } else if i64::MIN <= n <= i64::MAX {
        Some(n as i64)
    } else {
        None
    }
}

/// The number of extended grapheme clusters in `s`, as the crate
/// `unicode_segmentation` cuts them.
pub uninterp spec fn grapheme_count(s: Seq<char>) -> nat;

/// Calls `UnicodeSegmentation::graphemes` with `true`, for extended
/// clusters, and counts what the iterator yields.
#[verifier::external_body]
pub(crate) fn count_graphemes(s: &str) -> (n: usize)
    ensures
        n == grapheme_count(s@),
{
    unicode_segmentation::UnicodeSegmentation::graphemes(s, true).count()
}

/// The string that a native function of `String` acts on.
pub open spec fn string_receiver(this: ObjectView) -> Option<Seq<char>> {
    match receiver(this) {
        Some(ObjectView { value: ValueView::Str(a), .. }) => Some(a),
        _ => None,
    }
}

/// The message of a string that writes no number.
pub open spec fn parse_text(s: Seq<char>) -> Seq<char> {
    "Cannot parse '"@ + s + "' to 64-bit integer"@
}

/// What `String.i` returns: the number that the receiver writes.
pub open spec fn parse_int_result(this: ObjectView) -> Result<ObjectView, Seq<char>> {
    match string_receiver(this) {
        None => Err(receiver_text(this, "a string"@)),
        Some(a) => match parse_integer(a) {
            Some(v) => Ok(integer_view(v)),
            None => Err(parse_text(a)),
        },
    }
}

/// The length of a text as the language counts it: in grapheme clusters.
pub open spec fn text_length(s: Seq<char>) -> i64 {
    (grapheme_count(s) as usize) as i64
}

/// What `String.len` returns.
pub open spec fn length_result(this: ObjectView) -> Result<ObjectView, Seq<char>> {
    match string_receiver(this) {
        None => Err(receiver_text(this, "a string"@)),
        Some(a) => Ok(integer_view(text_length(a))),
    }
}

/// What `String.+` returns: the receiver with the first argument behind it.
pub open spec fn concat_result(this: ObjectView, args: Seq<ObjectView>) -> Result<
    ObjectView,
    Seq<char>,
> {
    if args.len() == 0 {
        Err(arity_text(this))
    } else {
        match string_receiver(this) {
            None => Err(receiver_text(this, "a string"@)),
            Some(a) => match args[0].value {
                ValueView::Str(b) => Ok(string_view(a + b)),
                _ => Err(operand_text(this, "a string"@)),
            },
        }
    }
}

/// The index that `b` means in a collection of length `len`: itself, or,
/// where it is negative, counted back from the length.
pub open spec fn wrapped_index(b: i64, len: i64) -> i64 {
    if b < 0 {
        len.wrapping_add(b)
    } else {
        b
    }
}

/// The message of an index that is out of range.
pub open spec fn range_text(what: Seq<char>, b: i64) -> Seq<char> {
    what + int_text(b as int) + " is out of range"@
}

/// The character of `a` at index `b` as a string, where `len` is the
/// length from which a negative index counts back; or the error of an
/// index that is out of range.
pub open spec fn char_at_value(a: Seq<char>, b: i64, len: i64) -> Result<ObjectView, Seq<char>> {
    if 0 <= wrapped_index(b, len) < a.len() {
        Ok(string_view(seq![a[wrapped_index(b, len) as int]]))
    } else {
        Err(range_text("String index "@, b))
    }
}

/// What `String.get_index` returns: the character at the index as a
/// string. A negative index counts back from the length in grapheme
/// clusters; the index itself counts characters.
pub open spec fn char_at_result(this: ObjectView, args: Seq<ObjectView>) -> Result<
    ObjectView,
    Seq<char>,
> {
    if args.len() == 0 {
        Err(arity_text(this))
    } else {
        match string_receiver(this) {
            None => Err(receiver_text(this, "a string"@)),
            Some(a) => match args[0].value {
                ValueView::Int(b) => char_at_value(a, b, text_length(a)),
                _ => Err(operand_text(this, "an integer"@)),
            },
        }
    }
}

/// Reads the number that `s` writes.
#[verifier::rlimit(30)]
#[verifier::spinoff_prover]
pub fn read_integer(s: &str) -> (r: Option<i64>)
    ensures
        r == parse_integer(s@),
{
    let src = chars_of(s);
    let n = src.len();
    let negative = n > 0 && src[0] == '-';
    let start: usize = if n > 0 && (src[0] == '-' || src[0] == '+') {
        1
    } else {
        0
    };
    if start >= n {
        return None;
    }
    let end = scan_digits(&src, start);
    if end != n {
        return None;
    }
    let limit: u64 = if negative {
        0x8000_0000_0000_0000
    } else {
        0x7fff_ffff_ffff_ffff
    };
    let mut value: u64 = 0;
    let mut i = start;
    proof {
        lemma_digits_run(src@, start as int);
    }
    while i < n
        invariant
            start <= i <= n,
            n == src.len(),
            value == digits_value(src@, start as int, i as int),
            value <= limit,
            src@ == s@,
            negative == (n > 0 && src@[0] == '-'),
            start == (if n > 0 && (src@[0] == '-' || src@[0] == '+') { 1int } else { 0int }),
            digits_end(src@, start as int) == n,
            limit == (if negative { 0x8000_0000_0000_0000u64 } else { 0x7fff_ffff_ffff_ffffu64 }),
            forall|k: int| start <= k < n ==> is_digit(#[trigger] src@[k]),
        decreases n - i,
    {
        let d: u64 = (src[i] as u32 - '0' as u32) as u64;
        if value > (limit - d) / 10 {
            proof {
                lemma_digits_grow(src@, start as int, i + 1, n as int);
            }
            return None;
        }
        value = value * 10 + d;
        i += 1;
    }
    if negative {
        if value == 0x8000_0000_0000_0000 {
            Some(i64::MIN)
        } else {
            Some(0 - (value as i64))
        }
    } else {
        Some(value as i64)
    }
}

/// The text that an object holds, where it is a string.
pub fn string_of(o: &BaseObject) -> (r: Option<String>)
    ensures
        match r {
            Some(a) => o@.value == ValueView::Str(a@),
            None => !(o@.value is Str),
        },
{
    proof {
        assert(o@.value == o.internal_value.model());
    }
    match &o.internal_value {
        ValueType::Str(a) => Some(a.clone()),
        _ => None,
    }
}

/// The string that a native function of `String` acts on.
fn receiver_string(this: &BaseObject) -> (r: Option<String>)
    ensures
        match r {
            Some(a) => string_receiver(this@) == Some(a@),
            None => string_receiver(this@) is None,
        },
{
    match this.parent() {
        Some(p) => string_of(&p),
        None => None,
    }
}

/// `String.i`.
pub fn parse_int(this: BaseObject, _args: Vec<BaseObject>, _e: Environment) -> (r: ObjResult)
    ensures
        result_view(r) == parse_int_result(this@),
{
    match receiver_string(&this) {
        None => receiver_error(&this, "a string"),
        Some(a) => match read_integer(a.as_str()) {
            Some(v) => Ok(new_integer(v)),
            None => {
                let mut m = String::from_str("Cannot parse '");
                m.append(a.as_str());
                m.append("' to 64-bit integer");
                Err(m)
            },
        },
    }
}

/// The length of a text in grapheme clusters.
fn length_of(s: &str) -> (r: i64)
    ensures
        r == text_length(s@),
{
    let n = count_graphemes(s);
    #[verifier::truncate]
    (n as i64)
}

/// `String.len`.
pub fn length(this: BaseObject, _args: Vec<BaseObject>, _e: Environment) -> (r: ObjResult)
    ensures
        result_view(r) == length_result(this@),
{
    match receiver_string(&this) {
        None => receiver_error(&this, "a string"),
        Some(a) => Ok(new_integer(length_of(a.as_str()))),
    }
}

/// `String.+`.
pub fn add(this: BaseObject, args: Vec<BaseObject>, _e: Environment) -> (r: ObjResult)
    ensures
        result_view(r) == concat_result(this@, objects_view(args@)),
{
    if args.len() == 0 {
        return arity_error(&this);
    }
    match receiver_string(&this) {
        None => receiver_error(&this, "a string"),
        Some(a) => match string_of(&args[0]) {
            None => operand_error(&this, "a string"),
            Some(b) => {
                let mut r = a;
                r.append(b.as_str());
                Ok(new_string(r))
            },
        },
    }
}

/// The error of an index that is out of range.
pub fn range_error(what: &str, b: i64) -> (r: ObjResult)
    ensures
        result_view(r) == Err::<ObjectView, Seq<char>>(range_text(what@, b)),
{
    let mut m = String::from_str(what);
    push_int(&mut m, b);
    m.append(" is out of range");
    Err(m)
}

/// The character of `a` at index `b` as a string, where `len` is the
/// length from which a negative index counts back.
pub fn char_at(a: &str, b: i64, len: i64) -> (r: ObjResult)
    ensures
        result_view(r) == char_at_value(a@, b, len),
{
    let c = if b < 0 {
        len.wrapping_add(b)
    } else {
        b
    };
    let chars = chars_of(a);
    if c >= 0 && (c as u64) < chars.len() as u64 {
        let mut s = String::new();
        s.push(chars[c as usize]);
        proof {
            assert(s@ =~= seq![a@[c as int]]);
        }
        Ok(new_string(s))
    } else {
        range_error("String index ", b)
    }
}

/// `String.get_index`. The grapheme clusters are counted only for a
/// negative index, which alone counts back from their number.
#[verifier::rlimit(30)]
#[verifier::spinoff_prover]
pub fn get_index(this: BaseObject, args: Vec<BaseObject>, _e: Environment) -> (r: ObjResult)
    ensures
        result_view(r) == char_at_result(this@, objects_view(args@)),
{
    if args.len() == 0 {
        return arity_error(&this);
    }
    match receiver_string(&this) {
        None => receiver_error(&this, "a string"),
        Some(a) => match integer_of(&args[0]) {
            None => operand_error(&this, "an integer"),
            Some(b) => {
                let len = if b < 0 {
                    length_of(a.as_str())
                } else {
                    0
                };
                char_at(a.as_str(), b, len)
            },
        },
    }
}

/// Makes the string object for `x`.
pub fn new_string(x: String) -> (r: BaseObject)
    ensures
        r@ == string_view(x@),
{
    let mut env = Environment::new();
    add_member(&mut env, "i", "String.i", Native::StringParseInt);
    add_member(&mut env, "len", "String.len", Native::StringLen);
    add_member(&mut env, "+", "String.+", Native::StringAdd);
    add_member(&mut env, "add", "String.+", Native::StringAdd);
    add_member(&mut env, "get_index", "String.get_index", Native::StringGetIndex);
    new_object("String", env, ValueType::Str(x))
}

} // verus!
