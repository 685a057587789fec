//! What can go wrong between a frame and the screen.

use vstd::prelude::*;

verus! {

/// Errors the engine reports.
#[derive(Debug, PartialEq, Eq)]
pub enum ByardError {
    /// A pipeline's shader or descriptor failed validation.
    PipelineCompilation {
        /// The pipeline.
        pipeline: String,
        /// Why it failed.
        reason: String,
    },
    /// No compatible GPU adapter or device.
    UnsupportedBackend,
    /// Preparing text failed.
    TextPrepare(String),
    /// Recording text failed.
    TextRender(String),
    /// The surface failed.
    RenderSurface(String),
    /// The logic thread could not be created.
    ThreadSpawn(String),
}

/// The character of a decimal digit.
pub open spec fn digit(d: int) -> char {
    (48 + d) as char
}

/// The decimal digits of a number, most significant first.
pub open spec fn decimal(n: nat) -> Seq<char>
    decreases n,
{
    if n < 10 {
        seq![digit(n as int)]
    } else {
        decimal(n / 10) + seq![digit((n % 10) as int)]
    }
}

/// One decimal digit.
fn digit_text(d: u32) -> (s: &'static str)
    requires
        d < 10,
    ensures
        s@ == seq![digit(d as int)],
{
    proof {
        reveal_strlit("0");
        reveal_strlit("1");
        reveal_strlit("2");
        reveal_strlit("3");
        reveal_strlit("4");
        reveal_strlit("5");
        reveal_strlit("6");
        reveal_strlit("7");
        reveal_strlit("8");
        reveal_strlit("9");
    }
    let s: &'static str = if d == 0 {
        "0"
    } else if d == 1 {
        "1"
    } else if d == 2 {
        "2"
    } else if d == 3 {
        "3"
    } else if d == 4 {
        "4"
    } else if d == 5 {
        "5"
    } else if d == 6 {
        "6"
    } else if d == 7 {
        "7"
    } else if d == 8 {
        "8"
    } else {
        "9"
    };
    assert(s@ =~= seq![digit(d as int)]);
    s
}

/// Appends a number's decimal digits.
pub fn append_decimal(out: &mut String, n: u32)
    ensures
        final(out)@ == old(out)@ + decimal(n as nat),
    decreases n,
{
    let ghost before = out@;
    if n >= 10 {
        append_decimal(out, n / 10);
    }
    out.append(digit_text(n % 10));
    proof {
        assert(out@ =~= before + decimal(n as nat));
    }
}

/// The message of an error.
pub open spec fn message(e: ByardError) -> Seq<char> {
    match e {
        ByardError::PipelineCompilation { pipeline, reason } => "pipeline `"@ + pipeline@
            + "` failed to build: "@ + reason@,
        ByardError::UnsupportedBackend => "no supported GPU backend"@,
        ByardError::TextPrepare(why) => "text prepare failed: "@ + why@,
        ByardError::TextRender(why) => "text render failed: "@ + why@,
        ByardError::RenderSurface(why) => "render surface failed: "@ + why@,
        ByardError::ThreadSpawn(why) => "logic thread failed to start: "@ + why@,
    }
}

impl ByardError {
    /// The error's message. A pipeline's failure names the pipeline.
    pub fn message(&self) -> (text: String)
        ensures
            text@ == message(*self),
    {
        let mut text: String = String::new();
        let ghost none = text@;
        match self {
            ByardError::PipelineCompilation { pipeline, reason } => {
                text.append("pipeline `");
                text.append(pipeline.as_str());
                text.append("` failed to build: ");
                text.append(reason.as_str());
            },
            ByardError::UnsupportedBackend => {
                text.append("no supported GPU backend");
            },
            ByardError::TextPrepare(why) => {
                text.append("text prepare failed: ");
                text.append(why.as_str());
            },
            ByardError::TextRender(why) => {
                text.append("text render failed: ");
                text.append(why.as_str());
            },
            ByardError::RenderSurface(why) => {
                text.append("render surface failed: ");
                text.append(why.as_str());
            },
            ByardError::ThreadSpawn(why) => {
                text.append("logic thread failed to start: ");
                text.append(why.as_str());
            },
        }
        assert(text@ =~= message(*self));
        text
    }
}

/// A message ends with what went wrong, and a pipeline's names the pipeline before.
pub proof fn law_messages_say_what_went_wrong(e: ByardError)
    ensures
        match e {
            ByardError::PipelineCompilation { pipeline, reason } => {
                &&& message(e).subrange(10, 10 + pipeline@.len() as int) == pipeline@
                &&& message(e).skip(message(e).len() - reason@.len()) == reason@
            },
            ByardError::TextPrepare(why) => message(e).skip(message(e).len() - why@.len()) == why@,
            ByardError::TextRender(why) => message(e).skip(message(e).len() - why@.len()) == why@,
            ByardError::RenderSurface(why) => message(e).skip(message(e).len() - why@.len()) == why@,
            ByardError::ThreadSpawn(why) => message(e).skip(message(e).len() - why@.len()) == why@,
            ByardError::UnsupportedBackend => message(e).len() > 0,
        },
{
    reveal_strlit("pipeline `");
    reveal_strlit("` failed to build: ");
    reveal_strlit("no supported GPU backend");
    match e {
        ByardError::PipelineCompilation { pipeline, reason } => {
            assert(message(e).subrange(10, 10 + pipeline@.len() as int) =~= pipeline@);
            assert(message(e).skip(message(e).len() - reason@.len()) =~= reason@);
        },
        ByardError::TextPrepare(why) => {
            assert(message(e).skip(message(e).len() - why@.len()) =~= why@);
        },
        ByardError::TextRender(why) => {
            assert(message(e).skip(message(e).len() - why@.len()) =~= why@);
        },
        ByardError::RenderSurface(why) => {
            assert(message(e).skip(message(e).len() - why@.len()) =~= why@);
        },
        ByardError::ThreadSpawn(why) => {
            assert(message(e).skip(message(e).len() - why@.len()) =~= why@);
        },
        ByardError::UnsupportedBackend => {},
    }
}

/// A number's decimal digits are read back as the number: one more digit is ten times
/// what stands before it, and itself.
pub proof fn law_decimal_is_read_back(n: nat)
    ensures
        decimal(n).len() >= 1,
        n < 10 ==> decimal(n) == seq![digit(n as int)],
        digit((n % 10) as int) as u32 == 48 + n % 10,
        n >= 10 ==> decimal(n).drop_last() == decimal(n / 10) && decimal(n).last() == digit(
            (n % 10) as int,
        ),
    decreases n,
{
    if n >= 10 {
        law_decimal_is_read_back(n / 10);
        assert(decimal(n).drop_last() =~= decimal(n / 10));
    }
}

} // verus!
