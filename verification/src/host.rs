//! Small services for the host: an integer sum and a greeting.

use crate::cstring::{free_of_terminator, is_c_string, TERMINATOR};
use vstd::prelude::*;

verus! {

/// What a greeting opens with: `Hello, `.
pub open spec fn salutation() -> Seq<u8> {
    seq![0x48u8, 0x65u8, 0x6Cu8, 0x6Cu8, 0x6Fu8, 0x2Cu8, 0x20u8]
}

/// What closes a greeting: `!`.
pub const EXCLAMATION: u8 = 0x21;

/// The greeting for `subject`, with its terminator.
pub open spec fn greeting(subject: Seq<u8>) -> Seq<u8> {
    (salutation() + subject).push(EXCLAMATION).push(TERMINATOR)
}

/// Adds two integers whose sum is an `i32`.
pub fn sum(x: i32, y: i32) -> (total: i32)
    requires
        i32::MIN <= x + y <= i32::MAX,
    ensures
        total == x + y,
{
    x + y
}

/// Builds the greeting for `subject`: the salutation, the subject's bytes as
/// they are, an exclamation mark and the terminator. The greeting is a C
/// string exactly when the subject holds no terminator.
pub fn greet(subject: &[u8]) -> (output: Vec<u8>)
    ensures
        output@ == greeting(subject@),
        is_c_string(output@) <==> free_of_terminator(subject@),
{
    let mut output: Vec<u8> = Vec::new();
    output.push(0x48);
    output.push(0x65);
    output.push(0x6C);
    output.push(0x6C);
    output.push(0x6F);
    output.push(0x2C);
    output.push(0x20);
    assert(output@ =~= salutation());
    let mut i: usize = 0;
    while i < subject.len()
        invariant
            i <= subject@.len(),
            output@ == salutation() + subject@.take(i as int),
        decreases subject.len() - i,
    {
        output.push(subject[i]);
        assert(output@ =~= salutation() + subject@.take(i + 1));
        i = i + 1;
    }
    assert(subject@.take(i as int) =~= subject@);
    output.push(EXCLAMATION);
    output.push(TERMINATOR);
    proof {
        lemma_greeting_c_string(subject@);
    }
    output
}

/// A greeting holds a terminator before its end exactly when its subject
/// holds one.
pub proof fn lemma_greeting_c_string(subject: Seq<u8>)
    ensures
        is_c_string(greeting(subject)) <==> free_of_terminator(subject),
{
    let body = greeting(subject).drop_last();
    assert(body =~= (salutation() + subject).push(EXCLAMATION));
    if free_of_terminator(subject) {
        assert forall|i: int| 0 <= i < body.len() implies #[trigger] body[i] != TERMINATOR by {
            if 7 <= i < 7 + subject.len() {
                assert(body[i] == subject[i - 7]);
            }
        }
    }
    if free_of_terminator(body) {
        assert forall|i: int| 0 <= i < subject.len() implies #[trigger] subject[i]
            != TERMINATOR by {
            assert(body[i + 7] == subject[i]);
        }
    }
}

} // verus!
