use vstd::prelude::*;

pub mod download;
pub mod encode;
pub mod filenames;
pub mod html;
pub mod pattern;
pub mod providers;
pub mod search;
pub mod split;
pub mod text;
pub mod types;

pub use types::{BookResult, DownloadEvent};

verus! {

/// The names of the book sources this library knows, in the order in which
/// searches visit them.
pub open spec fn provider_names() -> Seq<Seq<char>> {
    seq!["libgen"@, "gutenberg"@, "archive"@, "annas-archive"@]
}

/// Lists the names of all book sources.
pub fn list_provider_names() -> (names: Vec<&'static str>)
    ensures
        names@.map_values(|s: &'static str| s@) == provider_names(),
{
    let names = vec!["libgen", "gutenberg", "archive", "annas-archive"];
    assert(names@.map_values(|s: &'static str| s@) =~= provider_names());
    names
}

/// The names listed are those of all book sources, in search order, and each
/// names its source.
pub proof fn lemma_provider_names_match_kinds()
    ensures
        provider_names() == providers::all_kinds().map_values(
            |k: providers::ProviderKind| providers::kind_name(k),
        ),
        forall|i: int|
            0 <= i < provider_names().len() ==> providers::kind_named(#[trigger] provider_names()[i])
                == Some(providers::all_kinds()[i]),
{
    assert(provider_names() =~= providers::all_kinds().map_values(
        |k: providers::ProviderKind| providers::kind_name(k),
    ));
    assert forall|i: int|
        0 <= i < provider_names().len() implies providers::kind_named(
        #[trigger] provider_names()[i],
    ) == Some(providers::all_kinds()[i]) by {
        providers::lemma_kind_named_roundtrip(providers::all_kinds()[i]);
    }
}

} // verus!
