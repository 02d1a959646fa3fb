//! The macOS launch agent that starts the app at login.

use vstd::prelude::*;

use crate::text;

verus! {

/// The launch agent's label, also its file name.
pub open spec fn launch_agent_id() -> Seq<char> {
    "com.gpt2cursor.app"@
}

/// How one character appears in XML text.
pub open spec fn xml_char(c: char) -> Seq<char> {
    if c == '&' {
        "&amp;"@
    } else if c == '<' {
        "&lt;"@
    } else if c == '>' {
        "&gt;"@
    } else if c == '"' {
        "&quot;"@
    } else {
        seq![c]
    }
}

/// `s` with `&`, `<`, `>` and `"` escaped.
pub open spec fn xml_escaped(s: Seq<char>) -> Seq<char>
    decreases s.len(),
{
    if s.len() == 0 {
        Seq::empty()
    } else {
        xml_escaped(s.drop_last()) + xml_char(s.last())
    }
}

fn push_xml_char(out: &mut String, c: char)
    ensures
        final(out)@ == old(out)@ + xml_char(c),
{
    if c == '&' {
        text::push_str(out, "&amp;");
    } else if c == '<' {
        text::push_str(out, "&lt;");
    } else if c == '>' {
        text::push_str(out, "&gt;");
    } else if c == '"' {
        text::push_str(out, "&quot;");
    } else {
        text::push_char(out, c);
    }
}

/// Escapes a value for XML text (`escape_xml`).
pub fn escape_xml(value: &str) -> (r: String)
    ensures
        r@ == xml_escaped(value@),
{
    let chars = text::chars_of(value);
    let mut r = String::new();
    let mut i: usize = 0;
    assert(chars@.take(0) =~= Seq::<char>::empty());
    while i < chars.len()
        invariant
            i <= chars.len(),
            r@ == xml_escaped(chars@.take(i as int)),
        decreases chars.len() - i,
    {
        assert(chars@.take(i + 1).drop_last() =~= chars@.take(i as int));
        push_xml_char(&mut r, chars[i]);
        i = i + 1;
    }
    assert(chars@.take(chars.len() as int) =~= chars@);
    r
}

/// An escaped value holds no `<`, `>` or `"`, so it cannot close or open
/// markup in the property list, and escaping never shortens a value.
pub proof fn law_xml_escaped_has_no_markup(s: Seq<char>)
    ensures
        forall|i: int|
            0 <= i < xml_escaped(s).len() ==> #[trigger] xml_escaped(s)[i] != '<'
                && xml_escaped(s)[i] != '>' && xml_escaped(s)[i] != '"',
        xml_escaped(s).len() >= s.len(),
    decreases s.len(),
{
    if s.len() > 0 {
        law_xml_escaped_has_no_markup(s.drop_last());
        let pre = xml_escaped(s.drop_last());
        let tail = xml_char(s.last());
        reveal_strlit("&amp;");
        reveal_strlit("&lt;");
        reveal_strlit("&gt;");
        reveal_strlit("&quot;");
        assert forall|i: int| 0 <= i < tail.len() implies tail[i] != '<' && tail[i] != '>'
            && tail[i] != '"' by {}
        assert forall|i: int| 0 <= i < xml_escaped(s).len() implies #[trigger] xml_escaped(s)[i]
            != '<' && xml_escaped(s)[i] != '>' && xml_escaped(s)[i] != '"' by {
            if i < pre.len() {
                assert(xml_escaped(s)[i] == pre[i]);
            } else {
                assert(xml_escaped(s)[i] == tail[i - pre.len()]);
            }
        }
    }
}

/// The property list of a launch agent that runs `exe` at login.
pub open spec fn plist_text(exe: Seq<char>) -> Seq<char> {
    "<?xml version=\"1.0\" encoding=\"UTF-8\"?>\n<!DOCTYPE plist PUBLIC \"-//Apple//DTD PLIST 1.0//EN\" \"http://www.apple.com/DTDs/PropertyList-1.0.dtd\">\n<plist version=\"1.0\">\n<dict>\n  <key>Label</key>\n  <string>"@
        + launch_agent_id()
        + "</string>\n  <key>ProgramArguments</key>\n  <array>\n    <string>"@
        + xml_escaped(exe)
        + "</string>\n  </array>\n  <key>RunAtLoad</key>\n  <true/>\n</dict>\n</plist>\n"@
}

/// The launch agent for the executable at `exe` (`launch_agent_plist`).
pub fn launch_agent_plist(exe: &str) -> (r: String)
    ensures
        r@ == plist_text(exe@),
{
    let mut r = text::owned(
        "<?xml version=\"1.0\" encoding=\"UTF-8\"?>\n<!DOCTYPE plist PUBLIC \"-//Apple//DTD PLIST 1.0//EN\" \"http://www.apple.com/DTDs/PropertyList-1.0.dtd\">\n<plist version=\"1.0\">\n<dict>\n  <key>Label</key>\n  <string>",
    );
    text::push_str(&mut r, "com.gpt2cursor.app");
    text::push_str(&mut r, "</string>\n  <key>ProgramArguments</key>\n  <array>\n    <string>");
    let escaped = escape_xml(exe);
    text::push_str(&mut r, escaped.as_str());
    text::push_str(
        &mut r,
        "</string>\n  </array>\n  <key>RunAtLoad</key>\n  <true/>\n</dict>\n</plist>\n",
    );
    r
}

/// The launch agent's file name.
pub fn launch_agent_file_name() -> (r: String)
    ensures
        r@ == launch_agent_id() + ".plist"@,
{
    let mut r = text::owned("com.gpt2cursor.app");
    text::push_str(&mut r, ".plist");
    r
}

/// Where the launch agent lives under the home directory `home`
/// (`PathBuf::from(home).join(..)`: a separator is added unless `home` is
/// empty or already ends with one).
pub open spec fn agent_path_text(home: Seq<char>) -> Seq<char> {
    let tail = "Library/LaunchAgents/"@ + launch_agent_id() + ".plist"@;
    if home.len() == 0 {
        tail
    } else if home.last() == '/' {
        home + tail
    } else {
        home + "/"@ + tail
    }
}

/// The launch agent's path, from the `HOME` variable (`launch_agent_path`).
pub fn launch_agent_path(home: Option<&str>) -> (r: Result<String, String>)
    ensures
        match home {
            Some(h) => r matches Ok(p) && p@ == agent_path_text(h@),
            None => r matches Err(e) && e@ == "HOME is not set"@,
        },
{
    let h = match home {
        Some(h) => h,
        None => return Err(text::owned("HOME is not set")),
    };
    let chars = text::chars_of(h);
    let mut r = text::owned(h);
    if chars.len() > 0 && chars[chars.len() - 1] != '/' {
        text::push_str(&mut r, "/");
    }
    text::push_str(&mut r, "Library/LaunchAgents/");
    text::push_str(&mut r, "com.gpt2cursor.app");
    text::push_str(&mut r, ".plist");
    proof {
        reveal_strlit("/");
    }
    Ok(r)
}

/// What turning launch at login on or off does to the launch agent.
#[derive(Debug)]
pub enum LaunchAgentChange {
    /// Write `contents` to `path`, creating its directory.
    Write { path: String, contents: String },
    /// Remove the agent at `path`.
    Remove { path: String },
    /// Nothing to do.
    Keep,
}

/// Decides what `set_launch_at_login` does: only macOS has launch agents;
/// turning it on writes the agent for the running executable (`exe`, or the
/// error that locating it gave), turning it off removes an agent that exists.
pub fn set_launch_at_login(
    enabled: bool,
    macos: bool,
    home: Option<&str>,
    exe: Result<&str, &str>,
    agent_exists: bool,
) -> (r: Result<LaunchAgentChange, String>)
    ensures
        !macos ==> (r matches Err(e) && e@ == "Launch at login is only implemented for macOS"@),
        macos && home is None ==> (r matches Err(e) && e@ == "HOME is not set"@),
        macos && home is Some && enabled ==> match exe {
            Ok(x) => r matches Ok(LaunchAgentChange::Write { path, contents }) && path@
                == agent_path_text(home->0@) && contents@ == plist_text(x@),
            Err(err) => r matches Err(e) && e@ == "Unable to locate current executable: "@ + err@,
        },
        macos && home is Some && !enabled ==> if agent_exists {
            r matches Ok(LaunchAgentChange::Remove { path }) && path@ == agent_path_text(home->0@)
        } else {
            r matches Ok(LaunchAgentChange::Keep)
        },
{
    if !macos {
        return Err(text::owned("Launch at login is only implemented for macOS"));
    }
    let path = launch_agent_path(home)?;
    if enabled {
        match exe {
            Ok(x) => Ok(LaunchAgentChange::Write { path, contents: launch_agent_plist(x) }),
            Err(err) => {
                let mut e = text::owned("Unable to locate current executable: ");
                text::push_str(&mut e, err);
                Err(e)
            },
        }
    } else if agent_exists {
        Ok(LaunchAgentChange::Remove { path })
    } else {
        Ok(LaunchAgentChange::Keep)
    }
}

} // verus!
