//! Switching the display on and off: which outputs are switched and the
//! commands and environment used for it.

use vstd::prelude::*;
use crate::text::{contains_text, decimal, occurs_in, push_decimal, utf8_to_string};

verus! {

/// The display outputs that are switched, when the compositor reports them.
pub open spec fn possible_displays() -> Seq<Seq<char>> {
    seq!["HDMI-A-1"@, "HDMI-A-2"@]
}

/// The option that switches an output on or off.
pub open spec fn screen_switch(screen_on: bool) -> Seq<char> {
    if screen_on { "--on"@ } else { "--off"@ }
}

/// The option that switches an output on or off.
pub fn screen_state_argument(screen_on: bool) -> (arg: String)
    ensures
        arg@ == screen_switch(screen_on),
{
    if screen_on { "--on".to_owned() } else { "--off".to_owned() }
}

/// The runtime directory of the kiosk user, whose session runs the
/// compositor.
pub fn kiosk_runtime_dir(kiosk_uid: u64) -> (dir: String)
    ensures
        dir@ == "/run/user/"@ + decimal(kiosk_uid as nat),
{
    let mut dir = "/run/user/".to_owned();
    push_decimal(&mut dir, kiosk_uid);
    dir
}

/// The shell command that switches one output.
pub open spec fn output_command(display: Seq<char>, screen_on: bool) -> Seq<char> {
    "wlr-randr --output "@ + display + " "@ + screen_switch(screen_on)
}

/// The commands for the outputs named in the compositor's report, in the
/// order of `possible_displays`.
pub open spec fn output_commands(report: Seq<char>, screen_on: bool) -> Seq<Seq<char>> {
    possible_displays().filter(|d: Seq<char>| occurs_in(report, d)).map_values(
        |d: Seq<char>| output_command(d, screen_on),
    )
}

/// The commands switch every reported output, and only those, in the
/// order HDMI-A-1 then HDMI-A-2, each to the requested state: `--on` when
/// switching on and `--off` when switching off.
pub proof fn lemma_output_commands(report: Seq<char>, screen_on: bool)
    ensures
        output_commands(report, screen_on) == (if occurs_in(report, "HDMI-A-1"@) {
            seq!["wlr-randr --output "@ + "HDMI-A-1"@ + " "@ + (if screen_on { "--on"@ } else { "--off"@ })]
        } else {
            Seq::<Seq<char>>::empty()
        }) + (if occurs_in(report, "HDMI-A-2"@) {
            seq!["wlr-randr --output "@ + "HDMI-A-2"@ + " "@ + (if screen_on { "--on"@ } else { "--off"@ })]
        } else {
            Seq::<Seq<char>>::empty()
        }),
        forall|i: int| 0 <= i < output_commands(report, screen_on).len() ==> exists|d: Seq<char>|
            possible_displays().contains(d) && occurs_in(report, d) && #[trigger] output_commands(report, screen_on)[i]
                == "wlr-randr --output "@ + d + " "@ + (if screen_on { "--on"@ } else { "--off"@ }),
        output_commands(report, true).len() == output_commands(report, false).len(),
{
    reveal_with_fuel(Seq::filter, 3);
    let ds = possible_displays();
    let d0 = "HDMI-A-1"@;
    let d1 = "HDMI-A-2"@;
    assert(ds.drop_last() =~= seq![d0]);
    assert(ds.drop_last().drop_last() =~= Seq::<Seq<char>>::empty());
    let pred = |d: Seq<char>| occurs_in(report, d);
    let f0 = if pred(d0) { seq![d0] } else { Seq::<Seq<char>>::empty() };
    assert(seq![d0].filter(pred) =~= f0);
    let f = ds.filter(pred);
    assert(f =~= f0 + if pred(d1) { seq![d1] } else { Seq::<Seq<char>>::empty() });
    let sw = if screen_on { "--on"@ } else { "--off"@ };
    assert(screen_switch(screen_on) == sw);
    let expected = (if occurs_in(report, d0) {
        seq!["wlr-randr --output "@ + d0 + " "@ + sw]
    } else {
        Seq::<Seq<char>>::empty()
    }) + (if occurs_in(report, d1) {
        seq!["wlr-randr --output "@ + d1 + " "@ + sw]
    } else {
        Seq::<Seq<char>>::empty()
    });
    assert(output_commands(report, screen_on) =~= expected);
    assert forall|i: int| 0 <= i < output_commands(report, screen_on).len() implies exists|d: Seq<char>|
        possible_displays().contains(d) && occurs_in(report, d) && #[trigger] output_commands(report, screen_on)[i]
            == "wlr-randr --output "@ + d + " "@ + sw by {
        assert(ds[0] == d0 && ds[1] == d1);
        if occurs_in(report, d0) && i == 0 {
            assert(ds.contains(d0));
        } else {
            assert(ds.contains(d1));
        }
    }
    assert(output_commands(report, true).len() == f.len());
    assert(output_commands(report, false).len() == f.len());
}

/// Why the outputs could not be switched.
#[derive(PartialEq, Eq, Structural, Debug, Clone, Copy)]
pub enum ScreenError {
    /// The compositor's report was not valid UTF-8.
    ReportNotUtf8,
}

/// The commands that switch every output the compositor reports (its
/// output is given as raw bytes), or an error when the report is not text.
pub fn screen_commands(report: &[u8], screen_on: bool) -> (commands: Result<Vec<String>, ScreenError>)
    ensures
        !vstd::utf8::valid_utf8(report@) ==> commands == Err::<Vec<String>, ScreenError>(ScreenError::ReportNotUtf8),
        vstd::utf8::valid_utf8(report@) ==> (commands matches Ok(c)
            && c@.map_values(|x: String| x@) == output_commands(vstd::utf8::decode_utf8(report@), screen_on)),
{
    let text = match utf8_to_string(report) {
        Some(t) => t,
        None => return Err(ScreenError::ReportNotUtf8),
    };
    let ghost report_text = vstd::utf8::decode_utf8(report@);
    let arg = screen_state_argument(screen_on);
    let displays = ["HDMI-A-1", "HDMI-A-2"];
    let mut commands: Vec<String> = Vec::new();
    let ghost d0 = "HDMI-A-1"@;
    let ghost d1 = "HDMI-A-2"@;
    assert(possible_displays() == seq![d0, d1]);
    assert(possible_displays().take(0) =~= Seq::<Seq<char>>::empty());
    proof {
        reveal(Seq::filter);
    }
    assert(commands@.map_values(|x: String| x@) =~= Seq::<Seq<char>>::empty());
    let mut i: usize = 0;
    while i < 2
        invariant
            i <= 2,
            text@ == report_text,
            arg@ == screen_switch(screen_on),
            displays@ == seq!["HDMI-A-1", "HDMI-A-2"],
            commands@.map_values(|x: String| x@) == possible_displays().take(i as int).filter(
                |d: Seq<char>| occurs_in(report_text, d),
            ).map_values(|d: Seq<char>| output_command(d, screen_on)),
        decreases 2 - i,
    {
        let display = displays[i];
        let ghost before = commands@.map_values(|x: String| x@);
        assert(possible_displays().take(i + 1).drop_last() =~= possible_displays().take(i as int));
        assert(possible_displays().take(i + 1).last() == display@);
        proof {
            reveal(Seq::filter);
        }
        if contains_text(text.as_str(), display) {
            let mut command = "wlr-randr --output ".to_owned();
            command.append(display);
            command.append(" ");
            command.append(arg.as_str());
            commands.push(command);
            assert(commands@.map_values(|x: String| x@) =~= before.push(output_command(display@, screen_on)));
        }
        i = i + 1;
    }
    assert(possible_displays().take(2) =~= possible_displays());
    Ok(commands)
}

} // verus!
