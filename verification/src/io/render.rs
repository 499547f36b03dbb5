//! The textual form of runtime values.

use vstd::prelude::*;
use crate::io::host::{Exchange, Host, Recorder, Reply, Request};
use crate::io::runtime::{RuntimeValue, Signal, SignalView, ValueView};
use crate::io::text::{debug_text, str_debug};

verus! {

/// The character of a decimal digit.
pub open spec fn digit_char(d: nat) -> char
    recommends
        d < 10,
{
    if d == 0 {
        '0'
    } else if d == 1 {
        '1'
    } else if d == 2 {
        '2'
    } else if d == 3 {
        '3'
    } else if d == 4 {
        '4'
    } else if d == 5 {
        '5'
    } else if d == 6 {
        '6'
    } else if d == 7 {
        '7'
    } else if d == 8 {
        '8'
    } else {
        '9'
    }
}

/// The decimal digits of a natural number, without leading zeros.
pub open spec fn digits_of(n: nat) -> Seq<char>
    decreases n,
{
    if n < 10 {
        seq![digit_char(n)]
    } else {
        digits_of(n / 10).push(digit_char(n % 10))
    }
}

/// An integer in decimal, with a minus sign where it is negative.
pub open spec fn int_text(v: int) -> Seq<char> {
    if v < 0 {
        seq!['-'] + digits_of((-v) as nat)
    } else {
        digits_of(v as nat)
    }
}

/// The textual form of a value that is no float. Of a float the host gives the
/// text.
pub open spec fn rendering(value: ValueView) -> Seq<char> {
    match value {
        ValueView::Never => "never"@,
        ValueView::Bool(true) => "true"@,
        ValueView::Bool(false) => "false"@,
        ValueView::Float(_) => Seq::empty(),
        ValueView::Int(i) => int_text(i as int),
        ValueView::String(text) => str_debug(text),
        ValueView::Object(_) => "object"@,
        ValueView::Error(message) => message,
        ValueView::ExternFn(_) => "external_fn"@,
        ValueView::Fn { identifier, .. } => identifier,
        ValueView::Signal(SignalView::Break) => "signal::Break"@,
        ValueView::Signal(SignalView::Return(_)) => "signal::Return"@,
    }
}

fn digit(d: u64) -> (out: char)
    requires
        d < 10,
    ensures
        out == digit_char(d as nat),
{
    if d == 0 {
        '0'
    } else if d == 1 {
        '1'
    } else if d == 2 {
        '2'
    } else if d == 3 {
        '3'
    } else if d == 4 {
        '4'
    } else if d == 5 {
        '5'
    } else if d == 6 {
        '6'
    } else if d == 7 {
        '7'
    } else if d == 8 {
        '8'
    } else {
        '9'
    }
}

/// An integer in decimal.
pub fn render_int(value: i64) -> (out: String)
    ensures
        out@ == int_text(value as int),
{
    let magnitude: u64 = if value >= 0 {
        value as u64
    } else {
        (-(value + 1)) as u64 + 1
    };
    // The digits from the last to the first.
    let mut reversed: Vec<char> = Vec::new();
    let mut rest = magnitude;
    while rest >= 10
        invariant
            digits_of(magnitude as nat) == digits_of(rest as nat) + reversed@.reverse(),
        decreases rest,
    {
        let ghost before = reversed@;
        reversed.push(digit(rest % 10));
        proof {
            assert(reversed@.reverse() =~= seq![digit_char((rest % 10) as nat)]
                + before.reverse());
            assert(digits_of(rest as nat) == digits_of((rest / 10) as nat).push(
                digit_char((rest % 10) as nat),
            ));
            assert(digits_of(rest as nat) + before.reverse() =~= digits_of((rest / 10) as nat)
                + reversed@.reverse());
        }
        rest = rest / 10;
    }
    let mut out = String::new();
    if value < 0 {
        out.push('-');
    }
    out.push(digit(rest));
    let ghost head = out@;
    assert(head =~= (if value < 0 {
        seq!['-']
    } else {
        Seq::<char>::empty()
    }) + digits_of(rest as nat));
    let mut i: usize = reversed.len();
    while i > 0
        invariant
            i <= reversed.len(),
            out@ == head + reversed@.reverse().subrange(0, reversed.len() - i),
        decreases i,
    {
        i -= 1;
        out.push(reversed[i]);
        assert(reversed@.reverse().subrange(0, reversed.len() - i) =~= reversed@.reverse().subrange(
            0,
            reversed.len() - i - 1,
        ).push(reversed[i as int]));
    }
    assert(reversed@.reverse().subrange(0, reversed.len() as int) =~= reversed@.reverse());
    assert(out@ =~= int_text(value as int));
    out
}

/// The textual form of a value. A float is handed to the host, whose text is
/// the result.
pub fn render<H: Host>(value: &RuntimeValue, host: &mut Recorder<H>) -> (out: String)
    ensures
        match value@ {
            ValueView::Float(bits) => final(host).log() == old(host).log().push(
                Exchange { request: Request::FloatText { bits }, reply: Reply::Text(out@) },
            ),
            _ => out@ == rendering(value@) && final(host).log() == old(host).log(),
        },
{
    match value {
        RuntimeValue::Never => String::from_str("never"),
        RuntimeValue::Bool(true) => String::from_str("true"),
        RuntimeValue::Bool(false) => String::from_str("false"),
        RuntimeValue::Float(bits) => host.float_text(*bits),
        RuntimeValue::Int(i) => render_int(*i),
        RuntimeValue::String(text) => debug_text(text.as_str()),
        RuntimeValue::Object(_) => String::from_str("object"),
        RuntimeValue::Error(message) => message.clone(),
        RuntimeValue::ExternFn(_) => String::from_str("external_fn"),
        RuntimeValue::Fn { identifier, .. } => identifier.name.clone(),
        RuntimeValue::Signal(Signal::Break) => String::from_str("signal::Break"),
        RuntimeValue::Signal(Signal::Return(_)) => String::from_str("signal::Return"),
    }
}

} // verus!
