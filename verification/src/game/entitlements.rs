//! The entitlements that the game's executable needs before a library can be
//! loaded into it, as the signing tool reports them in a property list.

use vstd::prelude::*;
use vstd::string::StringExecFns;
use crate::text::{
    chars_of, find, first_occurrence, has_prefix, matches_at, occurs_at, push_range, skip_spaces,
    skip_whitespace,
};

verus! {

pub const ALLOW_DYLD_ENVIRONMENT_VARIABLES: &'static str =
    "com.apple.security.cs.allow-dyld-environment-variables";

pub const ALLOW_UNSIGNED_EXECUTABLE_MEMORY: &'static str =
    "com.apple.security.cs.allow-unsigned-executable-memory";

pub const DISABLE_LIBRARY_VALIDATION: &'static str =
    "com.apple.security.cs.disable-library-validation";

pub const GET_TASK_ALLOW: &'static str = "com.apple.security.get-task-allow";

/// The four entitlements that the game's executable needs.
pub open spec fn required_keys() -> Seq<Seq<char>> {
    seq![
        ALLOW_DYLD_ENVIRONMENT_VARIABLES@,
        ALLOW_UNSIGNED_EXECUTABLE_MEMORY@,
        DISABLE_LIBRARY_VALIDATION@,
        GET_TASK_ALLOW@,
    ]
}

/// The four entitlements that the game's executable needs.
pub fn required() -> (r: Vec<&'static str>)
    ensures
        r.deep_view() == required_keys(),
{
    let mut keys: Vec<&'static str> = Vec::new();
    keys.push(ALLOW_DYLD_ENVIRONMENT_VARIABLES);
    keys.push(ALLOW_UNSIGNED_EXECUTABLE_MEMORY);
    keys.push(DISABLE_LIBRARY_VALIDATION);
    keys.push(GET_TASK_ALLOW);
    assert(keys.deep_view() =~= required_keys());
    keys
}

/// Which of the required entitlements an executable has.
#[derive(Debug, PartialEq, Eq)]
pub struct EntitlementStatus {
    /// The keys that are there and `true`.
    pub granted: Vec<&'static str>,
    /// The keys that are absent, or not `true`.
    pub missing: Vec<&'static str>,
}

impl EntitlementStatus {
    /// Whether nothing is missing.
    pub fn all_granted(&self) -> (r: bool)
        ensures
            r == (self.missing@.len() == 0),
    {
        self.missing.len() == 0
    }
}

/// How a property list writes the key `key`.
pub open spec fn key_tag(key: Seq<char>) -> Seq<char> {
    "<key>"@ + key + "</key>"@
}

/// Whether the property list `xml` grants `key`: behind the first place where
/// the key is written, white space apart, stands `<true/>`.
pub open spec fn is_entitled(xml: Seq<char>, key: Seq<char>) -> bool {
    match first_occurrence(xml, key_tag(key)) {
        Some(at) => occurs_at(xml, skip_whitespace(xml, at + key_tag(key).len()), "<true/>"@),
        None => false,
    }
}

/// Whether the property list `xml` grants `key`.
pub fn has_entitlement(xml: &str, key: &str) -> (r: bool)
    ensures
        r == is_entitled(xml@, key@),
{
    let mut tag = String::new();
    tag.append("<key>");
    tag.append(key);
    tag.append("</key>");
    let needle = chars_of(tag.as_str());
    let chars = chars_of(xml);
    match find(&chars, &needle) {
        Some(at) => {
            let value = skip_spaces(&chars, at + needle.len());
            let granted = chars_of("<true/>");
            matches_at(&chars, value, &granted)
        },
        None => false,
    }
}

/// `is_entitled` by `xml`, or its contrary where `granted` is false, for
/// handing to functions that take a test.
pub open spec fn entitled_by(xml: Seq<char>, granted: bool) -> spec_fn(Seq<char>) -> bool {
    |key: Seq<char>| is_entitled(xml, key) == granted
}

/// The required entitlements that `xml` grants.
pub open spec fn granted_keys(xml: Seq<char>) -> Seq<Seq<char>> {
    required_keys().filter(entitled_by(xml, true))
}

/// The required entitlements that `xml` does not grant.
pub open spec fn missing_keys(xml: Seq<char>) -> Seq<Seq<char>> {
    required_keys().filter(entitled_by(xml, false))
}

/// Sorts the required entitlements into granted and missing, from what the
/// signing tool printed when asked for the executable's entitlements: `None`
/// where it could not be run or failed, and then all four are missing.
pub fn check(xml: Option<&str>) -> (status: EntitlementStatus)
    ensures
        match xml {
            Some(text) => status.granted.deep_view() == granted_keys(text@)
                && status.missing.deep_view() == missing_keys(text@),
            None => status.granted.deep_view() == Seq::<Seq<char>>::empty()
                && status.missing.deep_view() == required_keys(),
        },
{
    let keys = required();
    let mut granted: Vec<&'static str> = Vec::new();
    let text = match xml {
        Some(text) => text,
        None => {
            assert(granted.deep_view() =~= Seq::<Seq<char>>::empty());
            return EntitlementStatus { granted, missing: keys };
        },
    };
    let mut missing: Vec<&'static str> = Vec::new();
    let ghost has = entitled_by(text@, true);
    let ghost lacks = entitled_by(text@, false);
    let mut i: usize = 0;
    proof {
        reveal(Seq::filter);
        assert(keys.deep_view().take(0) =~= Seq::<Seq<char>>::empty());
        assert(granted.deep_view() =~= Seq::<Seq<char>>::empty());
        assert(missing.deep_view() =~= Seq::<Seq<char>>::empty());
    }
    while i < keys.len()
        invariant
            i <= keys.len(),
            has == entitled_by(text@, true),
            lacks == entitled_by(text@, false),
            granted.deep_view() == keys.deep_view().take(i as int).filter(has),
            missing.deep_view() == keys.deep_view().take(i as int).filter(lacks),
        decreases keys.len() - i,
    {
        let ghost granted_before = granted.deep_view();
        let ghost missing_before = missing.deep_view();
        let key = keys[i];
        proof {
            reveal(Seq::filter);
            let next = keys.deep_view().take(i + 1);
            assert(next.drop_last() =~= keys.deep_view().take(i as int));
            assert(next.last() == key@);
        }
        if has_entitlement(text, key) {
            granted.push(key);
            assert(granted.deep_view() =~= granted_before.push(key@));
        } else {
            missing.push(key);
            assert(missing.deep_view() =~= missing_before.push(key@));
        }
        i += 1;
    }
    assert(keys.deep_view().take(keys.len() as int) =~= keys.deep_view());
    EntitlementStatus { granted, missing }
}

/// The property list that grants the four required entitlements: what the
/// signing tool is given to sign the executable with.
pub const ENTITLEMENTS_PLIST: &'static str = "<?xml version=\"1.0\" encoding=\"UTF-8\"?>
<!DOCTYPE plist PUBLIC \"-//Apple//DTD PLIST 1.0//EN\" \"http://www.apple.com/DTDs/PropertyList-1.0.dtd\">
<plist version=\"1.0\">
<dict>
    <key>com.apple.security.cs.allow-dyld-environment-variables</key>
    <true/>
    <key>com.apple.security.cs.allow-unsigned-executable-memory</key>
    <true/>
    <key>com.apple.security.cs.disable-library-validation</key>
    <true/>
    <key>com.apple.security.get-task-allow</key>
    <true/>
</dict>
</plist>";

/// What all the keys begin with, and what is left out when they are listed.
pub const KEY_PREFIX: &'static str = "com.apple.security.";

/// A key as it is listed: without the common prefix.
pub open spec fn short_name_of(key: Seq<char>) -> Seq<char> {
    if KEY_PREFIX@.is_prefix_of(key) {
        key.skip(KEY_PREFIX@.len() as int)
    } else {
        key
    }
}

/// The keys as they are listed: each without the common prefix, a comma and a
/// space between two.
pub open spec fn listed(keys: Seq<Seq<char>>) -> Seq<char>
    decreases keys.len(),
{
    if keys.len() == 0 {
        Seq::empty()
    } else if keys.len() == 1 {
        short_name_of(keys[0])
    } else {
        listed(keys.drop_last()) + ", "@ + short_name_of(keys.last())
    }
}

/// The keys as they are listed: each without the common prefix, a comma and a
/// space between two.
pub fn list_keys(keys: &Vec<&'static str>) -> (r: String)
    ensures
        r@ == listed(keys.deep_view()),
{
    let prefix = chars_of(KEY_PREFIX);
    let mut out = String::new();
    let mut i: usize = 0;
    assert(keys.deep_view().take(0) =~= Seq::<Seq<char>>::empty());
    while i < keys.len()
        invariant
            i <= keys.len(),
            prefix@ == KEY_PREFIX@,
            out@ == listed(keys.deep_view().take(i as int)),
        decreases keys.len() - i,
    {
        proof {
            let next = keys.deep_view().take(i + 1);
            assert(next.drop_last() =~= keys.deep_view().take(i as int));
            assert(next.last() == keys[i as int]@);
            assert(next[0] == keys[0]@);
        }
        if i > 0 {
            out.append(", ");
        }
        let chars = chars_of(keys[i]);
        if has_prefix(&chars, &prefix) {
            push_range(&mut out, &chars, prefix.len(), chars.len());
        } else {
            push_range(&mut out, &chars, 0, chars.len());
            assert(chars@.subrange(0, chars@.len() as int) =~= chars@);
        }
        i += 1;
    }
    assert(keys.deep_view().take(keys.len() as int) =~= keys.deep_view());
    out
}

/// How an attempt to sign the executable with the required entitlements went.
#[derive(Debug, PartialEq, Eq)]
pub enum SigningOutcome {
    /// The property list could not be written; with the reason.
    PlistNotWritten(String),
    /// The signing tool could not be run; with the reason.
    ToolNotRun(String),
    /// The signing tool ran and failed; with what it printed.
    ToolFailed(String),
    /// The signing tool succeeded; with what it printed when asked again for
    /// the executable's entitlements, if it could be asked.
    Signed(Option<String>),
}

/// What is missing once the executable is signed.
pub open spec fn missing_after(report: Option<String>) -> Seq<Seq<char>> {
    match report {
        Some(xml) => missing_keys(xml@),
        None => required_keys(),
    }
}

/// What an attempt to sign the executable comes to: the patch took only where
/// the tool succeeded and the executable then has all four entitlements. Each
/// failure is told with its reason.
pub fn patch(outcome: &SigningOutcome) -> (r: Result<(), String>)
    ensures
        match outcome {
            SigningOutcome::PlistNotWritten(why) => r matches Err(m) && m@
                == "Failed to write entitlements plist: "@ + why@,
            SigningOutcome::ToolNotRun(why) => r matches Err(m) && m@ == "Failed to run codesign: "@
                + why@,
            SigningOutcome::ToolFailed(why) => r matches Err(m) && m@ == "codesign failed: "@
                + why@,
            SigningOutcome::Signed(report) => if missing_after(*report).len() == 0 {
                r is Ok
            } else {
                r matches Err(m) && m@ == "Entitlements still missing after patch: "@ + listed(
                    missing_after(*report),
                )
            },
        },
{
    let mut message = String::new();
    match outcome {
        SigningOutcome::PlistNotWritten(why) => {
            message.append("Failed to write entitlements plist: ");
            message.append(why.as_str());
        },
        SigningOutcome::ToolNotRun(why) => {
            message.append("Failed to run codesign: ");
            message.append(why.as_str());
        },
        SigningOutcome::ToolFailed(why) => {
            message.append("codesign failed: ");
            message.append(why.as_str());
        },
        SigningOutcome::Signed(report) => {
            let status = match report {
                Some(xml) => check(Some(xml.as_str())),
                None => check(None),
            };
            if status.all_granted() {
                return Ok(());
            }
            message.append("Entitlements still missing after patch: ");
            let names = list_keys(&status.missing);
            message.append(names.as_str());
        },
    }
    Err(message)
}

} // verus!
