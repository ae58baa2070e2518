//! Desktop notifications.

use vstd::prelude::*;

verus! {

/// The arguments of `notify-send` for a message of the launcher.
pub open spec fn message_args(
    icon: Option<Seq<char>>,
    summary: Seq<char>,
    body: Seq<char>,
) -> Seq<Seq<char>> {
    seq!["-a"@, "Ritz Launcher"@] + (match icon {
        Some(path) => seq!["-i"@, path],
        None => seq![],
    }) + seq![summary, body]
}

/// The arguments of `notify-send` for a message of the launcher, with its icon
/// where there is one.
pub fn notify_args(icon: Option<&str>, summary: &str, body: &str) -> (r: Vec<String>)
    ensures
        r.deep_view() == message_args(icon.deep_view(), summary@, body@),
{
    let mut r: Vec<String> = Vec::new();
    r.push("-a".to_owned());
    r.push("Ritz Launcher".to_owned());
    match icon {
        Some(path) => {
            r.push("-i".to_owned());
            r.push(path.to_owned());
        },
        None => {},
    }
    r.push(summary.to_owned());
    r.push(body.to_owned());
    assert(r.deep_view() =~= message_args(icon.deep_view(), summary@, body@));
    r
}

} // verus!
