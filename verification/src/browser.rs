//! What the app decides from the browser it runs in: iOS or Android, whether
//! it runs installed on the home screen, and whether to suggest installing.
use vstd::prelude::*;

use crate::text::{chars_of, contains_chars, contains_text};

verus! {

/// The local-storage key set once the install suggestion is dismissed.
pub const IOS_NUDGE_KEY: &'static str = "pcpp_ios_nudge_dismissed";

/// A user agent of an iPhone, iPad or iPod.
pub open spec fn ios_user_agent(ua: Seq<char>) -> bool {
    contains_text(ua, "iPhone"@) || contains_text(ua, "iPad"@) || contains_text(ua, "iPod"@)
}

fn ua_contains(ua: &[char], word: &str) -> (r: bool)
    ensures
        r == contains_text(ua@, word@),
{
    contains_chars(ua, chars_of(word).as_slice())
}

/// Whether the user agent is that of an iOS or iPadOS browser.
pub fn is_ios_browser(user_agent: &str) -> (r: bool)
    ensures
        r == ios_user_agent(user_agent@),
{
    let ua = chars_of(user_agent);
    ua_contains(ua.as_slice(), "iPhone") || ua_contains(ua.as_slice(), "iPad") || ua_contains(
        ua.as_slice(),
        "iPod",
    )
}

/// Whether the user agent is that of an Android browser.
pub fn is_android_browser(user_agent: &str) -> (r: bool)
    ensures
        r == contains_text(user_agent@, "Android"@),
{
    ua_contains(chars_of(user_agent).as_slice(), "Android")
}

/// The app runs installed when the display mode is standalone or when the
/// navigator says so (iOS).
pub fn is_running_standalone(display_mode_standalone: bool, navigator_standalone: bool) -> (r:
    bool)
    ensures
        r == (display_mode_standalone || navigator_standalone),
{
    display_mode_standalone || navigator_standalone
}

/// The suggestion to add the app to the home screen shows on iOS browsers
/// that do not run it installed, until it is dismissed once.
pub fn should_show_ios_nudge(dismissed: bool, user_agent: &str, standalone: bool) -> (r: bool)
    ensures
        r == (!dismissed && ios_user_agent(user_agent@) && !standalone),
{
    if dismissed {
        return false;
    }
    if !is_ios_browser(user_agent) {
        return false;
    }
    !standalone
}

} // verus!
