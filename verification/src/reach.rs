//! The reachability of downloads: which downloads to probe, and the findings
//! on a download once it has been probed.

use vstd::prelude::*;
use crate::lint::{ContextView, ErrorContext, FindingView, LintErrors};
use crate::rules::{downloads_of, finding_if, font_downloads};
use crate::text::str_eq;
use crate::types::{lemma_views_push, views, Source, SourceDownload, SourceInstalationType};
use crate::urls::{scheme_of, text_of, url_scheme};

verus! {

/// Whether a response status stands for success: from 200 up to 299.
pub open spec fn is_success(status: u16) -> bool {
    200 <= status < 300
}

/// The findings on an external download whose address has this scheme and
/// answered with this status: one if the scheme is not `https`, one if the
/// status is no success.
pub open spec fn external_findings(
    context: ContextView,
    url: Seq<char>,
    scheme: Option<Seq<char>>,
    status: u16,
) -> Seq<FindingView> {
    finding_if(
        scheme != Some("https"@),
        FindingView::DownloadExternalResourceNotHttps(context, url),
    ) + finding_if(
        !is_success(status),
        FindingView::DownloadExternalResourceError(context, url, status),
    )
}

/// The findings on a local download: one if no file is at its path.
pub open spec fn local_findings(context: ContextView, path: Seq<char>, exists: bool) -> Seq<
    FindingView,
> {
    finding_if(!exists, FindingView::DownloadLocalResourceDoesntExist(context, path))
}

/// Every download of the manifest with the font it belongs to, in the order
/// of the fonts and of their installations: what is to be probed.
pub fn downloads_to_check(source: &Source) -> (r: Vec<(ErrorContext, SourceDownload)>)
    ensures
        views(r@) == downloads_of(source@.fonts, source.fonts.len() as int),
{
    let fonts = &source.fonts;
    let mut all: Vec<(ErrorContext, SourceDownload)> = Vec::new();
    let mut i: usize = 0;
    assert(views(all@) =~= downloads_of(views(fonts@), 0));
    while i < fonts.len()
        invariant
            i <= fonts.len(),
            views(all@) == downloads_of(views(fonts@), i as int),
        decreases fonts.len() - i,
    {
        let font = &fonts[i];
        let ghost before = views(all@);
        let mut j: usize = 0;
        assert(views(fonts@)[i as int] == font@);
        assert(views(all@) =~= before + font_downloads(font@, 0));
        while j < font.installations.len()
            invariant
                j <= font.installations.len(),
                views(all@) == before + font_downloads(font@, j as int),
            decreases font.installations.len() - j,
        {
            assert(font@.installations[j as int] == font.installations[j as int]@);
            let download = match &font.installations[j] {
                SourceInstalationType::Cabextract(data) => data.download.clone(),
            };
            let entry = (ErrorContext::Font(font.name.clone()), download);
            proof {
                lemma_views_push(all@, entry);
                assert(before + font_downloads(font@, j + 1) =~= (before + font_downloads(
                    font@,
                    j as int,
                )).push(entry@));
            }
            all.push(entry);
            j += 1;
        }
        i += 1;
    }
    all
}

/// The findings on an external download, given the scheme of its address and
/// the status that it answered with.
pub fn external_download_findings(
    context: ErrorContext,
    url: &str,
    scheme: Option<String>,
    status: u16,
) -> (r: Vec<LintErrors>)
    ensures
        views(r@) == external_findings(context@, url@, text_of(scheme), status),
{
    let mut errors: Vec<LintErrors> = Vec::new();
    let secure = match &scheme {
        Some(name) => str_eq(name.as_str(), "https"),
        None => false,
    };
    if !secure {
        errors.push(LintErrors::DownloadExternalResourceNotHttps(context.clone(), url.to_owned()));
    }
    if !(200 <= status && status < 300) {
        errors.push(LintErrors::DownloadExternalResourceError(context, url.to_owned(), status));
    }
    assert(views(errors@) =~= external_findings(context@, url@, text_of(scheme), status));
    errors
}

/// The findings on an external download that answered with this status.
pub fn check_external_download(context: ErrorContext, url: &str, status: u16) -> (r: Vec<
    LintErrors,
>)
    ensures
        views(r@) == external_findings(context@, url@, url_scheme(url@), status),
{
    let scheme = scheme_of(url);
    external_download_findings(context, url, scheme, status)
}

/// The findings on a local download, given whether a file is at its path.
pub fn check_local_download(context: ErrorContext, path: &str, exists: bool) -> (r: Vec<LintErrors>)
    ensures
        views(r@) == local_findings(context@, path@, exists),
{
    let mut errors: Vec<LintErrors> = Vec::new();
    if !exists {
        errors.push(LintErrors::DownloadLocalResourceDoesntExist(context, path.to_owned()));
    }
    assert(views(errors@) =~= local_findings(context@, path@, exists));
    errors
}

} // verus!
