//! Text rendering shared by the log prefixes and the procfs listings:
//! decimal and hexadecimal numbers, and the `file:line [module] function
//! [task=0x..]` prefix of a dynamic-debug message.
use vstd::prelude::*;
use vstd::string::*;
use crate::descriptor::{DebugDescriptor, DescriptorView, FLAG_FUNCTION, FLAG_LINE, FLAG_MODULE, FLAG_THREAD};

verus! {

/// The digit character of `d` (`0`-`9`, then `a`-`f`).
pub open spec fn digit_char(d: int) -> char {
    if d == 0 {
        '0'
    } else if d == 1 {
        '1'
    } else if d == 2 {
        '2'
    } else if d == 3 {
        '3'
    } else if d == 4 {
        '4'
    } else if d == 5 {
        '5'
    } else if d == 6 {
        '6'
    } else if d == 7 {
        '7'
    } else if d == 8 {
        '8'
    } else if d == 9 {
        '9'
    } else if d == 10 {
        'a'
    } else if d == 11 {
        'b'
    } else if d == 12 {
        'c'
    } else if d == 13 {
        'd'
    } else if d == 14 {
        'e'
    } else {
        'f'
    }
}

/// Decimal digits of `n`, most significant first, no leading zeros.
pub open spec fn dec_chars(n: nat) -> Seq<char>
    decreases n,
{
    if n < 10 {
        seq![digit_char(n as int)]
    } else {
        dec_chars(n / 10).push(digit_char((n % 10) as int))
    }
}

/// Lower-case hexadecimal digits of `n`, most significant first, no
/// leading zeros.
pub open spec fn hex_chars(n: nat) -> Seq<char>
    decreases n,
{
    if n < 16 {
        seq![digit_char(n as int)]
    } else {
        hex_chars(n / 16).push(digit_char((n % 16) as int))
    }
}

/// A one-character string holding digit `d`.
fn digit_str(d: u64) -> (r: &'static str)
    requires
        d < 16,
    ensures
        r@ == seq![digit_char(d as int)],
{
    match d {
        0 => {
            proof { reveal_strlit("0"); }
            "0"
        },
        1 => {
            proof { reveal_strlit("1"); }
            "1"
        },
        2 => {
            proof { reveal_strlit("2"); }
            "2"
        },
        3 => {
            proof { reveal_strlit("3"); }
            "3"
        },
        4 => {
            proof { reveal_strlit("4"); }
            "4"
        },
        5 => {
            proof { reveal_strlit("5"); }
            "5"
        },
        6 => {
            proof { reveal_strlit("6"); }
            "6"
        },
        7 => {
            proof { reveal_strlit("7"); }
            "7"
        },
        8 => {
            proof { reveal_strlit("8"); }
            "8"
        },
        9 => {
            proof { reveal_strlit("9"); }
            "9"
        },
        10 => {
            proof { reveal_strlit("a"); }
            "a"
        },
        11 => {
            proof { reveal_strlit("b"); }
            "b"
        },
        12 => {
            proof { reveal_strlit("c"); }
            "c"
        },
        13 => {
            proof { reveal_strlit("d"); }
            "d"
        },
        14 => {
            proof { reveal_strlit("e"); }
            "e"
        },
        _ => {
            proof { reveal_strlit("f"); }
            "f"
        },
    }
}

/// Append the decimal digits of `n`.
pub fn push_decimal(buf: &mut String, n: u64)
    ensures
        final(buf)@ == old(buf)@ + dec_chars(n as nat),
    decreases n,
{
    if n >= 10 {
        push_decimal(buf, n / 10);
    }
    buf.append(digit_str(n % 10));
    proof {
        if n >= 10 {
            assert(dec_chars(n as nat) == dec_chars((n / 10) as nat).push(digit_char((n % 10) as int)));
        }
    }
}

/// Append the lower-case hexadecimal digits of `n`.
pub fn push_hex(buf: &mut String, n: u64)
    ensures
        final(buf)@ == old(buf)@ + hex_chars(n as nat),
    decreases n,
{
    if n >= 16 {
        push_hex(buf, n / 16);
    }
    buf.append(digit_str(n % 16));
    proof {
        if n >= 16 {
            assert(hex_chars(n as nat) == hex_chars((n / 16) as nat).push(digit_char((n % 16) as int)));
        }
    }
}

/// The decimal rendering of `n`.
pub fn decimal_string(n: u64) -> (r: String)
    ensures
        r@ == dec_chars(n as nat),
{
    let mut s = String::new();
    push_decimal(&mut s, n);
    assert(s@ =~= dec_chars(n as nat));
    s
}

/// `<unknown>`, the name shown for a call site whose function is unknown.
pub open spec fn unknown_name() -> Seq<char> {
    seq!['<', 'u', 'n', 'k', 'n', 'o', 'w', 'n', '>']
}

/// The function name of `d`, or `<unknown>`.
pub open spec fn function_or_unknown(d: DescriptorView) -> Seq<char> {
    match d.function {
        Some(f) => f,
        None => unknown_name(),
    }
}

/// Append the function name of `descriptor`, or `<unknown>`.
pub fn push_function_name(buf: &mut String, descriptor: &DebugDescriptor)
    ensures
        final(buf)@ == old(buf)@ + function_or_unknown(descriptor@),
{
    match descriptor.function_name() {
        Some(f) => buf.append(f),
        None => {
            proof { reveal_strlit("<unknown>"); }
            buf.append("<unknown>");
        },
    }
}

/// The prefix `+f/+l/+m/+t` put before a message of call site `d`, in the
/// order `file:line [module] function [task=0x..] `; the task part only
/// when a task pointer is given.
pub open spec fn log_prefix(d: DescriptorView, task_ptr: Option<usize>) -> Seq<char> {
    (if d.flags & FLAG_LINE != 0 {
        d.file + seq![':'] + dec_chars(d.line as nat) + seq![' ']
    } else {
        Seq::empty()
    }) + (if d.flags & FLAG_MODULE != 0 {
        seq!['['] + d.mod_path + seq![']', ' ']
    } else {
        Seq::empty()
    }) + (if d.flags & FLAG_FUNCTION != 0 {
        function_or_unknown(d) + seq![' ']
    } else {
        Seq::empty()
    }) + (if d.flags & FLAG_THREAD != 0 && task_ptr is Some {
        seq!['[', 't', 'a', 's', 'k', '=', '0', 'x'] + hex_chars(task_ptr->Some_0 as nat) + seq![']', ' ']
    } else {
        Seq::empty()
    })
}

/// The message `message` of `descriptor` with the prefixes its format flags
/// ask for: `file:line [module] function [task=0x..] message`.  `task_ptr`
/// is the current task's address, `None` outside a task.
#[verifier::spinoff_prover]
#[verifier::rlimit(30)]
pub fn format_dyndbg_log(descriptor: &DebugDescriptor, message: &str, task_ptr: Option<usize>) -> (r: String)
    ensures
        r@ == log_prefix(descriptor@, task_ptr) + message@,
{
    let ghost d = descriptor@;
    let mut buf = String::new();
    let flags = descriptor.format_flags();
    let ghost p0: Seq<char> = Seq::empty();
    if flags & FLAG_LINE != 0 {
        buf.append(descriptor.file());
        proof { reveal_strlit(":"); }
        buf.append(":");
        push_decimal(&mut buf, descriptor.line() as u64);
        proof { reveal_strlit(" "); }
        buf.append(" ");
    }
    let ghost p1 = buf@;
    assert(p1 =~= (if d.flags & FLAG_LINE != 0 {
        d.file + seq![':'] + dec_chars(d.line as nat) + seq![' ']
    } else {
        Seq::empty()
    }));
    if flags & FLAG_MODULE != 0 {
        proof { reveal_strlit("["); }
        buf.append("[");
        buf.append(descriptor.mod_path());
        proof { reveal_strlit("] "); }
        buf.append("] ");
    }
    let ghost p2 = buf@;
    assert(p2 =~= p1 + (if d.flags & FLAG_MODULE != 0 {
        seq!['['] + d.mod_path + seq![']', ' ']
    } else {
        Seq::empty()
    }));
    if flags & FLAG_FUNCTION != 0 {
        push_function_name(&mut buf, descriptor);
        proof { reveal_strlit(" "); }
        buf.append(" ");
    }
    let ghost p3 = buf@;
    assert(p3 =~= p2 + (if d.flags & FLAG_FUNCTION != 0 {
        function_or_unknown(d) + seq![' ']
    } else {
        Seq::empty()
    }));
    if flags & FLAG_THREAD != 0 {
        match task_ptr {
            Some(p) => {
                proof { reveal_strlit("[task=0x"); }
                buf.append("[task=0x");
                push_hex(&mut buf, p as u64);
                proof { reveal_strlit("] "); }
                buf.append("] ");
            },
            None => {},
        }
    }
    let ghost p4 = buf@;
    assert(p4 =~= p3 + (if d.flags & FLAG_THREAD != 0 && task_ptr is Some {
        seq!['[', 't', 'a', 's', 'k', '=', '0', 'x'] + hex_chars(task_ptr->Some_0 as nat) + seq![']', ' ']
    } else {
        Seq::empty()
    }));
    buf.append(message);
    assert(buf@ =~= log_prefix(d, task_ptr) + message@);
    buf
}

/// What a hit of `descriptor` logs: nothing when its log switch is off, the
/// bare message when it has no format flags, else the prefixed message.
pub fn dyndbg_log_line(descriptor: &DebugDescriptor, message: &str, task_ptr: Option<usize>) -> (r: Option<String>)
    ensures
        r is Some <==> descriptor@.log,
        r matches Some(s) ==> s@ == (if descriptor@.flags == 0 {
            message@
        } else {
            log_prefix(descriptor@, task_ptr) + message@
        }),
{
    if !descriptor.should_log_fast() {
        return None;
    }
    if descriptor.format_flags() == 0 {
        Some(String::from_str(message))
    } else {
        Some(format_dyndbg_log(descriptor, message, task_ptr))
    }
}

/// What a hit of `descriptor` with message `message` does: the line it logs
/// (as `dyndbg_log_line` gives it) and whether it records a trace event
/// (exactly when its trace switch is on).
pub fn dyndbg_emit(descriptor: &DebugDescriptor, message: &str, task_ptr: Option<usize>) -> (r: (
    Option<String>,
    bool,
))
    ensures
        r.0 is Some <==> descriptor@.log,
        r.0 matches Some(s) ==> s@ == (if descriptor@.flags == 0 {
            message@
        } else {
            log_prefix(descriptor@, task_ptr) + message@
        }),
        r.1 == descriptor@.trace,
{
    (dyndbg_log_line(descriptor, message, task_ptr), descriptor.should_trace_fast())
}

} // verus!
