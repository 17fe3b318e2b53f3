use vstd::prelude::*;

use crate::model::Model;
use crate::performance::{after_word, PerformanceMonitor};
use crate::source::WordSource;
use crate::words::concat;

verus! {

/// Whether `c` has the Unicode `White_Space` property: the tab, line feed,
/// vertical tab, form feed, carriage return, space, next line, no-break
/// space, Ogham space mark, the spaces from en quad to hair space, line and
/// paragraph separators, narrow no-break space, medium mathematical space and
/// ideographic space.
pub open spec fn white_space(c: char) -> bool {
    let u = c as u32;
    ||| 0x09 <= u <= 0x0d
    ||| u == 0x20
    ||| u == 0x85
    ||| u == 0xa0
    ||| u == 0x1680
    ||| 0x2000 <= u <= 0x200a
    ||| u == 0x2028
    ||| u == 0x2029
    ||| u == 0x202f
    ||| u == 0x205f
    ||| u == 0x3000
}

/// Relies on `char::is_whitespace`: true exactly for characters with the
/// Unicode `White_Space` property.
pub assume_specification[ char::is_whitespace ](c: char) -> (r: bool)
    ensures
        r == white_space(c),
;

/// `t` is `s` without its leading and trailing white space.
pub open spec fn trimmed(s: Seq<char>, t: Seq<char>) -> bool {
    exists|a: int, b: int|
        #![trigger s.subrange(a, b)]
        0 <= a <= b <= s.len() && t == s.subrange(a, b) && (forall|i: int|
            0 <= i < a ==> white_space(#[trigger] s[i])) && (forall|i: int|
            b <= i < s.len() ==> white_space(#[trigger] s[i])) && (t.len() > 0 ==> !white_space(t[0])
            && !white_space(t[t.len() - 1]))
}

/// Relies on `str::trim`: the slice without leading and trailing characters
/// that have the `White_Space` property.
pub assume_specification[ str::trim ](s: &str) -> (r: &str)
    ensures
        trimmed(s@, r@),
;

/// Commits `entry` for the current word: the monitor scores it against the
/// word expected there, and the session records it.
pub fn commit_entry<S: WordSource>(
    model: &mut Model<S>,
    performance_monitor: &mut PerformanceMonitor,
    entry: &str,
)
    requires
        old(model).wf(),
        old(performance_monitor)@.attempted < u32::MAX,
    ensures
        final(model).wf(),
        Model::<S>::registered(old(model), entry@, final(model)),
        final(performance_monitor)@ == after_word(
            old(performance_monitor)@,
            entry@,
            concat(old(model).rows())[old(model).history().len() as int],
        ),
{
    let expected = model.get_current_word().unwrap();
    model.register(entry);
    performance_monitor.register(entry, expected.as_str());
}

/// Handles the full text of the entry after an edit. When it ends in white
/// space, the text without its surrounding white space is committed for the
/// current word and the entry is cleared; otherwise nothing changes and the
/// text stays as it is. Returns the text the entry shows afterwards.
pub fn on_keypress<S: WordSource>(
    model: &mut Model<S>,
    performance_monitor: &mut PerformanceMonitor,
    contents: &str,
) -> (shown: String)
    requires
        old(model).wf(),
        old(performance_monitor)@.attempted < u32::MAX,
    ensures
        final(model).wf(),
        contents@.len() > 0 && white_space(contents@.last()) ==> {
            &&& shown@.len() == 0
            &&& exists|t: Seq<char>|
                #![trigger trimmed(contents@, t)]
                trimmed(contents@, t) && Model::<S>::registered(old(model), t, final(model))
                    && final(performance_monitor)@ == after_word(
                    old(performance_monitor)@,
                    t,
                    concat(old(model).rows())[old(model).history().len() as int],
                )
        },
        !(contents@.len() > 0 && white_space(contents@.last())) ==> {
            &&& shown@ == contents@
            &&& *final(model) == *old(model)
            &&& *final(performance_monitor) == *old(performance_monitor)
        },
{
    let n = contents.unicode_len();
    if n > 0 && contents.get_char(n - 1).is_whitespace() {
        let entry = contents.trim();
        commit_entry(model, performance_monitor, entry);
        String::new()
    } else {
        contents.to_owned()
    }
}

} // verus!
