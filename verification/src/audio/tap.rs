//! Setting up and taking down a Core Audio process tap.
//!
//! The tap is wrapped in a private aggregate device, whose callback hands the
//! audio over. Each of these has to be made in turn and may fail; whatever was
//! made before the failure has to go again.
use vstd::prelude::*;
use crate::error::{ErrorModel, SallyError};
use crate::text;

verus! {

/// What a running tap is made of.
#[derive(Debug, Clone, Copy, PartialEq, Eq, Structural)]
pub enum TapPart {
    /// The tap on the processes.
    Tap,
    /// The aggregate device around it.
    Aggregate,
    /// What the callback works with.
    Context,
    /// The callback of the aggregate device.
    Callback,
    /// The aggregate device, started.
    Running,
}

/// Name of the aggregate device.
pub const AGGREGATE_NAME: &'static str = "Sally Tap";

/// Identifier of the aggregate device of a process.
pub fn aggregate_uid(process: u32) -> (r: String)
    ensures
        r@ == "com.sally.app.tap."@ + text::decimal(process as nat),
{
    let mut out = text::owned("com.sally.app.tap.");
    text::push_decimal(&mut out, process as u64);
    out
}

/// A status of the system in decimal.
pub open spec fn status_text(status: i32) -> Seq<char> {
    if status < 0 {
        "-"@ + text::decimal((-status) as nat)
    } else {
        text::decimal(status as nat)
    }
}

/// Appends a status in decimal.
fn push_status(out: &mut String, status: i32)
    ensures
        final(out)@ == old(out)@ + status_text(status),
{
    if status < 0 {
        out.push_str("-");
        text::push_decimal(out, (-(status as i64)) as u64);
        assert(out@ =~= old(out)@ + ("-"@ + text::decimal((-status) as nat)));
    } else {
        text::push_decimal(out, status as u64);
    }
}

/// The parts in the order in which they are made.
pub open spec fn parts() -> Seq<TapPart> {
    seq![
        TapPart::Tap,
        TapPart::Aggregate,
        TapPart::Context,
        TapPart::Callback,
        TapPart::Running,
    ]
}

/// The call that makes a part. The context is made for the call that makes the
/// callback, and cannot fail by itself.
pub open spec fn maker(part: TapPart) -> Seq<char> {
    match part {
        TapPart::Tap => "AudioHardwareCreateProcessTap"@,
        TapPart::Aggregate => "AudioHardwareCreateAggregateDevice"@,
        TapPart::Context | TapPart::Callback => "AudioDeviceCreateIOProcID"@,
        TapPart::Running => "AudioDeviceStart"@,
    }
}

/// What is told when a part cannot be made.
pub open spec fn failed_text(part: TapPart, status: i32) -> Seq<char> {
    maker(part) + " failed: OSStatus "@ + status_text(status) + if part == TapPart::Tap {
        " (Screen Recording / audio capture permission may be required)"@
    } else {
        ""@
    }
}

/// How far the setup of a tap is.
pub struct TapSetup {
    made: usize,
}

/// A part that could not be made: what has to go again, in that order, and
/// what is told.
pub struct TapFailure {
    pub release: Vec<TapPart>,
    pub error: SallyError,
}

impl TapSetup {
    /// The parts made so far, in order.
    pub closed spec fn held(self) -> Seq<TapPart> {
        parts().take(self.made as int)
    }

    pub closed spec fn wf(self) -> bool {
        self.made <= 5
    }

    /// Nothing is made yet.
    pub fn new() -> (r: Self)
        ensures
            r.wf(),
            r.held() == Seq::<TapPart>::empty(),
    {
        let r = TapSetup { made: 0 };
        assert(parts().take(0) =~= Seq::empty());
        r
    }

    /// The part to make next; none when the tap runs.
    pub fn next(&self) -> (r: Option<TapPart>)
        requires
            self.wf(),
        ensures
            self.held().len() <= 5,
            self.held() == parts().take(self.held().len() as int),
            r == if self.held().len() < 5 {
                Some(parts()[self.held().len() as int])
            } else {
                None
            },
    {
        if self.made == 0 {
            Some(TapPart::Tap)
        } else if self.made == 1 {
            Some(TapPart::Aggregate)
        } else if self.made == 2 {
            Some(TapPart::Context)
        } else if self.made == 3 {
            Some(TapPart::Callback)
        } else if self.made == 4 {
            Some(TapPart::Running)
        } else {
            None
        }
    }

    /// The next part was made, or could not be: everything held goes again, the
    /// newest first.
    pub fn made(&mut self, status: i32) -> (r: Result<(), TapFailure>)
        requires
            old(self).wf(),
            old(self).held().len() < 5,
            parts()[old(self).held().len() as int] == TapPart::Context ==> status == 0,
        ensures
            final(self).wf(),
            r is Ok <==> status == 0,
            r is Ok ==> final(self).held() == old(self).held().push(
                parts()[old(self).held().len() as int],
            ),
            r matches Err(f) ==> {
                &&& f.release@ == old(self).held().reverse()
                &&& f.error@ == ErrorModel::Audio(
                    failed_text(parts()[old(self).held().len() as int], status),
                )
                &&& final(self).held() == Seq::<TapPart>::empty()
            },
    {
        let ghost held = self.held();
        if status == 0 {
            self.made = self.made + 1;
            assert(self.held() =~= held.push(parts()[held.len() as int]));
            return Ok(());
        }
        let part = match self.next() {
            Some(p) => p,
            None => TapPart::Running,
        };
        let mut told = text::owned(
            match part {
                TapPart::Tap => "AudioHardwareCreateProcessTap",
                TapPart::Aggregate => "AudioHardwareCreateAggregateDevice",
                TapPart::Context | TapPart::Callback => "AudioDeviceCreateIOProcID",
                TapPart::Running => "AudioDeviceStart",
            },
        );
        told.push_str(" failed: OSStatus ");
        push_status(&mut told, status);
        told.push_str(
            if part == TapPart::Tap {
                " (Screen Recording / audio capture permission may be required)"
            } else {
                ""
            },
        );
        let mut release: Vec<TapPart> = Vec::new();
        if self.made > 3 {
            release.push(TapPart::Callback);
        }
        if self.made > 2 {
            release.push(TapPart::Context);
        }
        if self.made > 1 {
            release.push(TapPart::Aggregate);
        }
        if self.made > 0 {
            release.push(TapPart::Tap);
        }
        assert(release@ =~= held.reverse());
        self.made = 0;
        assert(self.held() =~= Seq::empty());
        Err(TapFailure { release, error: SallyError::Audio(told) })
    }
}

/// What goes when a running tap ends, in that order. The context goes last: no
/// callback can be working with it any more.
pub open spec fn torn_down() -> Seq<TapPart> {
    seq![
        TapPart::Running,
        TapPart::Callback,
        TapPart::Aggregate,
        TapPart::Tap,
        TapPart::Context,
    ]
}

/// What goes when a running tap ends, in that order.
pub fn teardown() -> (r: Vec<TapPart>)
    ensures
        r@ == torn_down(),
{
    vec![
        TapPart::Running,
        TapPart::Callback,
        TapPart::Aggregate,
        TapPart::Tap,
        TapPart::Context,
    ]
}

// ---------------------------------------------------------------------------
// Laws
// ---------------------------------------------------------------------------

/// Nothing of a running tap is left behind, and nothing goes twice.
pub proof fn nothing_is_left_behind(part: TapPart)
    ensures
        torn_down().contains(part),
        torn_down().no_duplicates(),
{
    let t = torn_down();
    match part {
        TapPart::Running => assert(t[0] == part),
        TapPart::Callback => assert(t[1] == part),
        TapPart::Aggregate => assert(t[2] == part),
        TapPart::Tap => assert(t[3] == part),
        TapPart::Context => assert(t[4] == part),
    }
}

/// The callback goes before the context that it works with, whether the setup
/// of a tap failed after `made` parts or the tap ends.
pub proof fn contexts_outlive_callbacks(made: int, i: int, j: int)
    requires
        0 <= made <= 5,
    ensures
        ({
            let r = parts().take(made).reverse();
            0 <= i < r.len() && 0 <= j < r.len() && r[i] == TapPart::Callback && r[j]
                == TapPart::Context ==> i < j
        }),
        ({
            let r = torn_down();
            0 <= i < r.len() && 0 <= j < r.len() && r[i] == TapPart::Callback && r[j]
                == TapPart::Context ==> i < j
        }),
{
}

} // verus!
