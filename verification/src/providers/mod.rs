//! The book sources: which there are, how they are named, and reading their
//! result pages.
use vstd::prelude::*;

use crate::text::{append_str, chars_of, same_chars, string_of};

pub mod annas_archive;
pub mod archive;
pub mod gutenberg;
pub mod libgen;

verus! {

/// A book source.
#[derive(Debug, Clone, Copy, PartialEq, Eq, Structural)]
pub enum ProviderKind {
    Libgen,
    Gutenberg,
    Archive,
    AnnasArchive,
}

/// The name of a book source.
pub open spec fn kind_name(k: ProviderKind) -> Seq<char> {
    match k {
        ProviderKind::Libgen => "libgen"@,
        ProviderKind::Gutenberg => "gutenberg"@,
        ProviderKind::Archive => "archive"@,
        ProviderKind::AnnasArchive => "annas-archive"@,
    }
}

/// All book sources, in the order in which searches visit them.
pub open spec fn all_kinds() -> Seq<ProviderKind> {
    seq![
        ProviderKind::Libgen,
        ProviderKind::Gutenberg,
        ProviderKind::Archive,
        ProviderKind::AnnasArchive,
    ]
}

impl ProviderKind {
    /// The name of this source.
    pub fn name(&self) -> (r: &'static str)
        ensures
            r@ == kind_name(*self),
    {
        match self {
            ProviderKind::Libgen => "libgen",
            ProviderKind::Gutenberg => "gutenberg",
            ProviderKind::Archive => "archive",
            ProviderKind::AnnasArchive => "annas-archive",
        }
    }
}

/// Which sources a search asks.
#[derive(Debug, Clone, Copy, PartialEq, Eq, Structural)]
pub enum ProviderChoice {
    Libgen,
    Gutenberg,
    Archive,
    Annas,
    All,
}

/// The sources that a choice asks, in order.
pub open spec fn chosen_kinds(choice: ProviderChoice) -> Seq<ProviderKind> {
    match choice {
        ProviderChoice::Libgen => seq![ProviderKind::Libgen],
        ProviderChoice::Gutenberg => seq![ProviderKind::Gutenberg],
        ProviderChoice::Archive => seq![ProviderKind::Archive],
        ProviderChoice::Annas => seq![ProviderKind::AnnasArchive],
        ProviderChoice::All => all_kinds(),
    }
}

/// The sources that a choice asks, in order.
pub fn providers_for(choice: ProviderChoice) -> (r: Vec<ProviderKind>)
    ensures
        r@ == chosen_kinds(choice),
{
    let r = match choice {
        ProviderChoice::Libgen => vec![ProviderKind::Libgen],
        ProviderChoice::Gutenberg => vec![ProviderKind::Gutenberg],
        ProviderChoice::Archive => vec![ProviderKind::Archive],
        ProviderChoice::Annas => vec![ProviderKind::AnnasArchive],
        ProviderChoice::All => vec![
            ProviderKind::Libgen,
            ProviderKind::Gutenberg,
            ProviderKind::Archive,
            ProviderKind::AnnasArchive,
        ],
    };
    assert(r@ =~= chosen_kinds(choice));
    r
}

/// Whether the text `s` equals the literal `lit`.
fn is_literal(s: &str, lit: &str) -> (r: bool)
    ensures
        r == (s@ == lit@),
{
    let a = chars_of(s);
    let b = chars_of(lit);
    same_chars(&a, &b)
}

/// The source whose name is `name`.
pub open spec fn kind_named(name: Seq<char>) -> Option<ProviderKind> {
    if name == "libgen"@ {
        Some(ProviderKind::Libgen)
    } else if name == "gutenberg"@ {
        Some(ProviderKind::Gutenberg)
    } else if name == "archive"@ {
        Some(ProviderKind::Archive)
    } else if name == "annas-archive"@ {
        Some(ProviderKind::AnnasArchive)
    } else {
        None
    }
}

/// The source whose name is `name`.
pub fn provider_named(name: &str) -> (r: Option<ProviderKind>)
    ensures
        r == kind_named(name@),
{
    if is_literal(name, "libgen") {
        Some(ProviderKind::Libgen)
    } else if is_literal(name, "gutenberg") {
        Some(ProviderKind::Gutenberg)
    } else if is_literal(name, "archive") {
        Some(ProviderKind::Archive)
    } else if is_literal(name, "annas-archive") {
        Some(ProviderKind::AnnasArchive)
    } else {
        None
    }
}

/// Every source is found again under its own name.
pub proof fn lemma_kind_named_roundtrip(k: ProviderKind)
    ensures
        kind_named(kind_name(k)) == Some(k),
{
    reveal_strlit("libgen");
    reveal_strlit("gutenberg");
    reveal_strlit("archive");
    reveal_strlit("annas-archive");
    assert("libgen"@.len() == 6);
    assert("gutenberg"@.len() == 9);
    assert("archive"@.len() == 7);
    assert("annas-archive"@.len() == 13);
}

/// Exactly four names name a source: `libgen`, `gutenberg`, `archive` and
/// `annas-archive`, each the name of its own source; on the command line
/// `annas` names Anna's Archive too, and any other name names nothing.
pub proof fn lemma_source_names(name: Seq<char>)
    ensures
        kind_named(name) == if name == "libgen"@ {
            Some(ProviderKind::Libgen)
        } else if name == "gutenberg"@ {
            Some(ProviderKind::Gutenberg)
        } else if name == "archive"@ {
            Some(ProviderKind::Archive)
        } else if name == "annas-archive"@ {
            Some(ProviderKind::AnnasArchive)
        } else {
            None
        },
        kind_named(name) matches Some(k) ==> kind_name(k) == name,
        cli_kind(name) == if name == "annas"@ {
            Some(ProviderKind::AnnasArchive)
        } else {
            kind_named(name)
        },
        forall|k: ProviderKind| #[trigger] all_kinds().contains(k),
        chosen_kinds(ProviderChoice::All).len() == 4,
{
    assert(all_kinds()[0] == ProviderKind::Libgen);
    assert(all_kinds()[1] == ProviderKind::Gutenberg);
    assert(all_kinds()[2] == ProviderKind::Archive);
    assert(all_kinds()[3] == ProviderKind::AnnasArchive);
    assert forall|k: ProviderKind| #[trigger] all_kinds().contains(k) by {
        match k {
            ProviderKind::Libgen => assert(all_kinds()[0] == k),
            ProviderKind::Gutenberg => assert(all_kinds()[1] == k),
            ProviderKind::Archive => assert(all_kinds()[2] == k),
            ProviderKind::AnnasArchive => assert(all_kinds()[3] == k),
        }
    }
}

/// What a download from a source with an unknown name is answered with.
pub fn provider_not_found(name: &str) -> (r: String)
    ensures
        r@ == "Provider '"@ + name@ + "' not found"@,
{
    let mut out = chars_of("Provider '");
    append_str(&mut out, name);
    append_str(&mut out, "' not found");
    string_of(&out)
}

/// The source that a command line names: a source's name, or `annas` for
/// Anna's Archive.
pub open spec fn cli_kind(name: Seq<char>) -> Option<ProviderKind> {
    if name == "annas"@ {
        Some(ProviderKind::AnnasArchive)
    } else {
        kind_named(name)
    }
}

/// The source that a command line names, or the message that it names none.
pub fn provider_for_cli(name: &str) -> (r: Result<ProviderKind, String>)
    ensures
        match cli_kind(name@) {
            Some(k) => r == Ok::<ProviderKind, String>(k),
            None => r matches Err(msg) && msg@ == "Unknown provider: "@ + name@
                + ". Use libgen, gutenberg, archive, or annas."@,
        },
{
    if is_literal(name, "annas") {
        return Ok(ProviderKind::AnnasArchive);
    }
    match provider_named(name) {
        Some(k) => Ok(k),
        None => {
            let mut out = chars_of("Unknown provider: ");
            append_str(&mut out, name);
            append_str(&mut out, ". Use libgen, gutenberg, archive, or annas.");
            Err(string_of(&out))
        },
    }
}

} // verus!
