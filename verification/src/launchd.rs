//! The login agent: the property-list text that registers the daemon with
//! the OS service manager, the launch domain for a user, and the reading of
//! the service manager's replies. Writing the file and calling the service
//! manager happen outside this crate.

use vstd::prelude::*;

use crate::strings::{
    contains_ignore_ascii_case, contains_sub, dec_str, lower_seq, spec_trim_ws, trim_ws,
    u64_to_string,
};

verus! {

/// The property list that the install command writes, with the executable
/// and log paths derived from the given home directory.
pub open spec fn spec_generate_plist(home: Seq<char>) -> Seq<char> {
    "<?xml version=\"1.0\" encoding=\"UTF-8\"?>\n<!DOCTYPE plist PUBLIC \"-//Apple//DTD PLIST 1.0//EN\" \"http://www.apple.com/DTDs/PropertyList-1.0.dtd\">\n<plist version=\"1.0\">\n<dict>\n    <key>Label</key>\n    <string>com.mountaineer.agent</string>\n    <key>ProgramArguments</key>\n    <array>\n        <string>"@
        + home + "/Applications/Mountaineer.app/Contents/MacOS/Mountaineer"@
        + "</string>\n    </array>\n    <key>EnvironmentVariables</key>\n    <dict>\n        <key>RUST_LOG</key>\n        <string>info</string>\n    </dict>\n    <key>RunAtLoad</key>\n    <true/>\n    <key>KeepAlive</key>\n    <dict>\n        <key>SuccessfulExit</key>\n        <false/>\n    </dict>\n    <key>StandardOutPath</key>\n    <string>"@
        + home + "/Library/Logs/mountaineer.log"@
        + "</string>\n    <key>StandardErrorPath</key>\n    <string>"@ + home
        + "/Library/Logs/mountaineer.log"@ + "</string>\n</dict>\n</plist>\n"@
}

/// Render the property list for the given home directory.
pub fn generate_plist(home: &str) -> (r: String)
    ensures
        r@ == spec_generate_plist(home@),
{
    let mut s =
        "<?xml version=\"1.0\" encoding=\"UTF-8\"?>\n<!DOCTYPE plist PUBLIC \"-//Apple//DTD PLIST 1.0//EN\" \"http://www.apple.com/DTDs/PropertyList-1.0.dtd\">\n<plist version=\"1.0\">\n<dict>\n    <key>Label</key>\n    <string>com.mountaineer.agent</string>\n    <key>ProgramArguments</key>\n    <array>\n        <string>".to_owned();
    s.append(home);
    s.append("/Applications/Mountaineer.app/Contents/MacOS/Mountaineer");
    s.append(
        "</string>\n    </array>\n    <key>EnvironmentVariables</key>\n    <dict>\n        <key>RUST_LOG</key>\n        <string>info</string>\n    </dict>\n    <key>RunAtLoad</key>\n    <true/>\n    <key>KeepAlive</key>\n    <dict>\n        <key>SuccessfulExit</key>\n        <false/>\n    </dict>\n    <key>StandardOutPath</key>\n    <string>",
    );
    s.append(home);
    s.append("/Library/Logs/mountaineer.log");
    s.append("</string>\n    <key>StandardErrorPath</key>\n    <string>");
    s.append(home);
    s.append("/Library/Logs/mountaineer.log");
    s.append("</string>\n</dict>\n</plist>\n");
    s
}

/// The name of the property-list file: `com.mountaineer.agent.plist`.
pub fn plist_file_name() -> (r: String)
    ensures
        r@ == "com.mountaineer.agent.plist"@,
{
    "com.mountaineer.agent.plist".to_owned()
}

/// The launch domain for a user: `gui/<uid>`.
pub fn launch_domain(uid: u32) -> (r: String)
    ensures
        r@ == "gui/"@ + dec_str(uid as nat),
{
    let mut s = "gui/".to_owned();
    s.append(u64_to_string(uid as u64).as_str());
    s
}

/// Whether a service-manager message means "the job was not loaded", which
/// an uninstall treats as already done: the message contains (up to ASCII
/// case) one of the three known phrasings.
pub open spec fn spec_is_not_loaded_error(message: Seq<char>) -> bool {
    ||| contains_sub(lower_seq(message), lower_seq("could not find service"@))
    ||| contains_sub(lower_seq(message), lower_seq("service cannot load in requested session"@))
    ||| contains_sub(lower_seq(message), lower_seq("no such process"@))
}

pub fn is_not_loaded_error(message: &str) -> (r: bool)
    ensures
        r == spec_is_not_loaded_error(message@),
{
    contains_ignore_ascii_case(message, "could not find service")
        || contains_ignore_ascii_case(message, "service cannot load in requested session")
        || contains_ignore_ascii_case(message, "no such process")
}

/// What a service-manager invocation printed, both streams trimmed and
/// combined: the non-empty stream alone, both labelled when both spoke, and
/// a placeholder when neither did.
pub open spec fn spec_format_launchctl_output(stdout: Seq<char>, stderr: Seq<char>) -> Seq<char> {
    let o = spec_trim_ws(stdout);
    let e = spec_trim_ws(stderr);
    if o.len() == 0 && e.len() == 0 {
        "no output"@
    } else if o.len() == 0 {
        e
    } else if e.len() == 0 {
        o
    } else {
        "stdout: "@ + o + "; stderr: "@ + e
    }
}

pub fn format_launchctl_output(stdout: &str, stderr: &str) -> (r: String)
    ensures
        r@ == spec_format_launchctl_output(stdout@, stderr@),
{
    let o = trim_ws(stdout);
    let e = trim_ws(stderr);
    if o.as_str().unicode_len() == 0 && e.as_str().unicode_len() == 0 {
        "no output".to_owned()
    } else if o.as_str().unicode_len() == 0 {
        e
    } else if e.as_str().unicode_len() == 0 {
        o
    } else {
        let mut s = "stdout: ".to_owned();
        s.append(o.as_str());
        s.append("; stderr: ");
        s.append(e.as_str());
        s
    }
}

} // verus!
