//! The text of each finding and of each build failure.

use vstd::prelude::*;
use vstd::string::StringExecFns;
use crate::builder::{BuildError, BuildErrorView};
use crate::lint::{ContextView, ErrorContext, FindingView, LintErrors};
use crate::urls::{hyphenated, uuid_text};

verus! {

/// The digit of a value below ten.
pub open spec fn digit(value: nat) -> Seq<char> {
    if value == 0 {
        "0"@
    } else if value == 1 {
        "1"@
    } else if value == 2 {
        "2"@
    } else if value == 3 {
        "3"@
    } else if value == 4 {
        "4"@
    } else if value == 5 {
        "5"@
    } else if value == 6 {
        "6"@
    } else if value == 7 {
        "7"@
    } else if value == 8 {
        "8"@
    } else {
        "9"@
    }
}

/// The number in decimal, without leading zeros.
pub open spec fn decimal(value: nat) -> Seq<char>
    decreases value,
{
    if value < 10 {
        digit(value)
    } else {
        decimal(value / 10) + digit(value % 10)
    }
}

/// The text of a place in the manifest.
pub open spec fn context_text(context: ContextView) -> Seq<char> {
    match context {
        ContextView::Groups => "groups"@,
        ContextView::Fonts => "fonts"@,
        ContextView::Group(name) => "groups -> "@ + name,
        ContextView::Font(name) => "fonts -> "@ + name,
    }
}

/// The text of the list at a place in the manifest.
pub open spec fn list_text(context: ContextView) -> Seq<char> {
    match context {
        ContextView::Groups => "groups"@,
        ContextView::Fonts => "fonts"@,
        ContextView::Group(name) => "groups -> "@ + name + " -> fonts"@,
        ContextView::Font(name) => "fonts -> "@ + name + " -> Installations"@,
    }
}

/// The text of a finding.
pub open spec fn finding_text(finding: FindingView) -> Seq<char> {
    match finding {
        FindingView::ReusedUuid(id) => "The UUID "@ + hyphenated(id) + " has been reused"@,
        FindingView::MissingUuid(context) => "Missing UUID for "@ + context_text(context),
        FindingView::DuplicatedName(name, context) => "The name/short name "@ + name
            + " has been reused in "@ + context_text(context),
        FindingView::NameTooLong(name, context) => "The name/short name "@ + name
            + " is too long in "@ + context_text(context),
        FindingView::NameTooShort(name, context) => "The name/short name "@ + name
            + " is too short in "@ + context_text(context),
        FindingView::UnsortedList(context) => "The list \""@ + list_text(context)
            + "\" is not sorted"@,
        FindingView::GroupEmpty(context) => "The group \""@ + context_text(context)
            + "\" has no fonts"@,
        FindingView::GroupDuplicateFont(context, font) => "The group \""@ + context_text(context)
            + "\" has a duplicate font named \""@ + font + "\""@,
        FindingView::GroupFontDoesntExist(context, font) => "The group \""@ + context_text(
            context,
        ) + "\" has a font named \""@ + font + "\" that doesn't exist"@,
        FindingView::FontEmpty(context) => "There are no installations for the font \""@
            + context_text(context) + "\""@,
        FindingView::DownloadLocalResourceDoesntExist(context, path) => "The local resource for \""@
            + context_text(context) + "\" doesn't exist at \""@ + path + "\""@,
        FindingView::DownloadExternalResourceNotHttps(context, url) => "External resource for \""@
            + context_text(context) + "\" isn't https at \""@ + url + "\""@,
        FindingView::DownloadExternalResourceError(context, url, status) => "Failed to download the external resource for \""@
            + context_text(context) + "\" at \""@ + url + "\" with status code "@ + decimal(
            status as nat,
        ),
    }
}

/// The text of a build failure.
pub open spec fn failure_text(failure: BuildErrorView) -> Seq<char> {
    match failure {
        BuildErrorView::UnexpectedEmptyUuid(name) => "Unexpected empty uuid (name: "@ + name
            + ")"@,
        BuildErrorView::MissingFont(name) => "Missing font (name: "@ + name + ")"@,
        BuildErrorView::DownloadFailed(url, detail) => "Download failed (url: "@ + url
            + ", error: "@ + detail + ")"@,
        BuildErrorView::FileError(path, detail) => "File error (path: "@ + path + ", error: "@
            + detail + ")"@,
    }
}

/// The digit of a value below ten.
fn digit_text(value: u16) -> (r: &'static str)
    requires
        value < 10,
    ensures
        r@ == digit(value as nat),
{
    if value == 0 {
        "0"
    } else if value == 1 {
        "1"
    } else if value == 2 {
        "2"
    } else if value == 3 {
        "3"
    } else if value == 4 {
        "4"
    } else if value == 5 {
        "5"
    } else if value == 6 {
        "6"
    } else if value == 7 {
        "7"
    } else if value == 8 {
        "8"
    } else {
        "9"
    }
}

/// The number in decimal.
pub fn decimal_text(value: u16) -> (r: String)
    ensures
        r@ == decimal(value as nat),
    decreases value,
{
    if value < 10 {
        String::from_str(digit_text(value))
    } else {
        let mut text = decimal_text(value / 10);
        text.append(digit_text(value % 10));
        text
    }
}

/// A text between two others.
fn framed(before: &str, middle: &str, after: &str) -> (r: String)
    ensures
        r@ == before@ + middle@ + after@,
{
    let mut text = String::from_str(before);
    text.append(middle);
    text.append(after);
    text
}

/// A text after a label.
fn labelled(label: &str, text: &str) -> (r: String)
    ensures
        r@ == label@ + text@,
{
    let mut labelled = String::from_str(label);
    labelled.append(text);
    labelled
}

/// Two texts, each after a label.
fn labelled_pair(first: &str, one: &str, second: &str, other: &str) -> (r: String)
    ensures
        r@ == first@ + one@ + second@ + other@,
{
    let mut text = String::from_str(first);
    text.append(one);
    text.append(second);
    text.append(other);
    text
}

/// Two texts, each after a label, and a closing text.
fn framed_pair(first: &str, one: &str, second: &str, other: &str, last: &str) -> (r: String)
    ensures
        r@ == first@ + one@ + second@ + other@ + last@,
{
    let mut text = String::from_str(first);
    text.append(one);
    text.append(second);
    text.append(other);
    text.append(last);
    text
}

impl ErrorContext {
    /// The text of the place.
    pub fn to_string(&self) -> (r: String)
        ensures
            r@ == context_text(self@),
    {
        match self {
            ErrorContext::Groups => String::from_str("groups"),
            ErrorContext::Fonts => String::from_str("fonts"),
            ErrorContext::Group(name) => labelled("groups -> ", name.as_str()),
            ErrorContext::Font(name) => labelled("fonts -> ", name.as_str()),
        }
    }

    /// The text of the list at the place.
    fn list_name(&self) -> (r: String)
        ensures
            r@ == list_text(self@),
    {
        match self {
            ErrorContext::Groups => String::from_str("groups"),
            ErrorContext::Fonts => String::from_str("fonts"),
            ErrorContext::Group(name) => framed("groups -> ", name.as_str(), " -> fonts"),
            ErrorContext::Font(name) => framed("fonts -> ", name.as_str(), " -> Installations"),
        }
    }
}

impl LintErrors {
    /// The text of the finding.
    pub fn to_string(&self) -> (r: String)
        ensures
            r@ == finding_text(self@),
    {
        match self {
            LintErrors::ReusedUuid(id) => framed(
                "The UUID ",
                uuid_text(*id).as_str(),
                " has been reused",
            ),
            LintErrors::MissingUuid(context) => labelled(
                "Missing UUID for ",
                context.to_string().as_str(),
            ),
            LintErrors::DuplicatedName(name, context) => labelled_pair(
                "The name/short name ",
                name.as_str(),
                " has been reused in ",
                context.to_string().as_str(),
            ),
            LintErrors::NameTooLong(name, context) => labelled_pair(
                "The name/short name ",
                name.as_str(),
                " is too long in ",
                context.to_string().as_str(),
            ),
            LintErrors::NameTooShort(name, context) => labelled_pair(
                "The name/short name ",
                name.as_str(),
                " is too short in ",
                context.to_string().as_str(),
            ),
            LintErrors::UnsortedList(context) => framed(
                "The list \"",
                context.list_name().as_str(),
                "\" is not sorted",
            ),
            LintErrors::GroupEmpty(context) => framed(
                "The group \"",
                context.to_string().as_str(),
                "\" has no fonts",
            ),
            LintErrors::GroupDuplicateFont(context, font) => framed_pair(
                "The group \"",
                context.to_string().as_str(),
                "\" has a duplicate font named \"",
                font.as_str(),
                "\"",
            ),
            LintErrors::GroupFontDoesntExist(context, font) => framed_pair(
                "The group \"",
                context.to_string().as_str(),
                "\" has a font named \"",
                font.as_str(),
                "\" that doesn't exist",
            ),
            LintErrors::FontEmpty(context) => framed(
                "There are no installations for the font \"",
                context.to_string().as_str(),
                "\"",
            ),
            LintErrors::DownloadLocalResourceDoesntExist(context, path) => framed_pair(
                "The local resource for \"",
                context.to_string().as_str(),
                "\" doesn't exist at \"",
                path.as_str(),
                "\"",
            ),
            LintErrors::DownloadExternalResourceNotHttps(context, url) => framed_pair(
                "External resource for \"",
                context.to_string().as_str(),
                "\" isn't https at \"",
                url.as_str(),
                "\"",
            ),
            LintErrors::DownloadExternalResourceError(context, url, status) => {
                let mut text = framed_pair(
                    "Failed to download the external resource for \"",
                    context.to_string().as_str(),
                    "\" at \"",
                    url.as_str(),
                    "\" with status code ",
                );
                text.append(decimal_text(*status).as_str());
                text
            },
        }
    }
}

impl BuildError {
    /// The text of the failure.
    pub fn to_string(&self) -> (r: String)
        ensures
            r@ == failure_text(self@),
    {
        match self {
            BuildError::UnexpectedEmptyUuid(name) => framed(
                "Unexpected empty uuid (name: ",
                name.as_str(),
                ")",
            ),
            BuildError::MissingFont(name) => framed("Missing font (name: ", name.as_str(), ")"),
            BuildError::DownloadFailed(url, detail) => framed_pair(
                "Download failed (url: ",
                url.as_str(),
                ", error: ",
                detail.as_str(),
                ")",
            ),
            BuildError::FileError(path, detail) => framed_pair(
                "File error (path: ",
                path.as_str(),
                ", error: ",
                detail.as_str(),
                ")",
            ),
        }
    }
}

} // verus!
