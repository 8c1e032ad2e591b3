//! Choosing the program that opens a detected link.

use vstd::prelude::*;
use super::{DetectedLink, LinkKind};
use crate::input::Platform;

verus! {

/// The platform's "open" command: `open` on macOS, `xdg-open` elsewhere.
pub open spec fn open_command_spec(platform: Platform) -> Seq<char> {
    match platform {
        Platform::MacOs => seq!['o', 'p', 'e', 'n'],
        Platform::Other => seq!['x', 'd', 'g', '-', 'o', 'p', 'e', 'n'],
    }
}

/// Returns the platform-appropriate "open" command.
pub fn platform_open_command(platform: Platform) -> (cmd: String)
    ensures
        cmd@ == open_command_spec(platform),
{
    let chars: &[char] = match platform {
        Platform::MacOs => &['o', 'p', 'e', 'n'],
        Platform::Other => &['x', 'd', 'g', '-', 'o', 'p', 'e', 'n'],
    };
    let cmd = crate::text::string_from_chars(chars);
    assert(cmd@ =~= open_command_spec(platform));
    cmd
}

/// Build the command to open a detected link: (program, args).
/// URLs open with the platform's open command; file paths open with the
/// editor from `$EDITOR` when it is set (`editor`), else the same command.
/// The only argument is the link's text.
pub fn build_open_command(link: &DetectedLink, editor: Option<String>, platform: Platform) -> (r: (String, Vec<String>))
    ensures
        r.1@.len() == 1,
        r.1@[0]@ == link.text@,
        r.0@ == (match (link.kind, editor) {
            (LinkKind::FilePath, Some(e)) => e@,
            _ => open_command_spec(platform),
        }),
{
    let mut args: Vec<String> = Vec::new();
    args.push(link.text.clone());
    match link.kind {
        LinkKind::Url => (platform_open_command(platform), args),
        LinkKind::FilePath => match editor {
            Some(e) => (e, args),
            None => (platform_open_command(platform), args),
        },
    }
}

} // verus!
