//! Output lines: tab-separated columns, switched on by flags.

use vstd::prelude::*;
use vstd::string::*;
use crate::listing::Listing;
use crate::text::{left_justified, push_left_justified, push_right_justified, right_justified};
use crate::version::VersionId;

verus! {

/// Width of the name column.
pub const NAME_WIDTH: usize = 42;

/// Width of the version column.
pub const VERSION_WIDTH: usize = 5;

/// Width of the time column.
pub const UPDATED_WIDTH: usize = 19;

/// The column separator.
pub open spec fn tab() -> Seq<char> {
    seq!['\t']
}

/// The columns that are always there: the name, padded to 42 characters;
/// in the long format the version, right-justified in 5 characters, and the
/// time, padded to 19, come before it.
pub open spec fn leading_columns(entry: Listing, long: bool) -> Seq<char> {
    if long {
        right_justified(VersionId::text_of(entry.version.value()), 5) + tab() + left_justified(
            entry.updated.display_text(),
            19,
        ) + tab() + left_justified(entry.name@, 42)
    } else {
        left_justified(entry.name@, 42)
    }
}

/// The storage path as an extra column, where it is asked for.
pub open spec fn physical_column(entry: Listing, physical: bool) -> Seq<char> {
    if physical {
        tab() + entry.storage_path@
    } else {
        Seq::empty()
    }
}

/// `algorithm:digest` as the last column, where it is asked for and the
/// entry has a digest; nothing otherwise.
pub open spec fn digest_column(entry: Listing, digest: bool) -> Seq<char> {
    if digest && entry.carries_digest() {
        tab() + entry.digest_algorithm->Some_0@ + seq![':'] + entry.digest->Some_0@
    } else {
        Seq::empty()
    }
}

/// The whole line of an entry under the three display flags.
pub open spec fn line_text(entry: Listing, long: bool, physical: bool, digest: bool) -> Seq<char> {
    leading_columns(entry, long) + physical_column(entry, physical) + digest_column(entry, digest)
}

/// Renders one entry as one line, without a line end.
pub fn format_listing(entry: &Listing, long: bool, physical: bool, digest: bool) -> (r: String)
    ensures
        r@ == line_text(*entry, long, physical, digest),
{
    proof {
        reveal_strlit("\t");
        reveal_strlit(":");
        assert("\t"@ =~= tab());
        assert(":"@ =~= seq![':']);
    }
    let mut out = String::new();
    assert(out@ =~= Seq::<char>::empty());
    if long {
        let version = entry.version.version_str();
        let updated = entry.updated_str();
        push_right_justified(&mut out, version.as_str(), VERSION_WIDTH);
        out.append("\t");
        push_left_justified(&mut out, updated.as_str(), UPDATED_WIDTH);
        out.append("\t");
    }
    push_left_justified(&mut out, entry.name.as_str(), NAME_WIDTH);
    assert(out@ =~= leading_columns(*entry, long));
    if physical {
        out.append("\t");
        out.append(entry.storage_path.as_str());
    }
    assert(out@ =~= leading_columns(*entry, long) + physical_column(*entry, physical));
    if digest {
        match (entry.digest_algorithm, entry.digest) {
            (Some(algorithm), Some(value)) => {
                out.append("\t");
                out.append(algorithm.as_str());
                out.append(":");
                out.append(value.as_str());
            },
            _ => {},
        }
    }
    assert(out@ =~= line_text(*entry, long, physical, digest));
    out
}

/// An entry without a digest is rendered the same whether or not the
/// digest column is asked for.
pub proof fn lemma_digest_flag_without_digest(entry: Listing, long: bool, physical: bool)
    requires
        !entry.carries_digest(),
    ensures
        line_text(entry, long, physical, true) == line_text(entry, long, physical, false),
{
}

/// With every optional column off, the line is the name padded with spaces
/// to 42 characters: it is at least that long, starts with the name, and
/// holds a tab only where the name does.
pub proof fn lemma_plain_line(entry: Listing)
    ensures
        line_text(entry, false, false, false) == left_justified(entry.name@, 42),
        line_text(entry, false, false, false).len() >= 42,
        entry.name@.len() <= 42 ==> line_text(entry, false, false, false).len() == 42,
        entry.name@.is_prefix_of(line_text(entry, false, false, false)),
        !entry.name@.contains('\t') ==> !line_text(entry, false, false, false).contains('\t'),
{
    let line = line_text(entry, false, false, false);
    assert(line =~= left_justified(entry.name@, 42));
    if !entry.name@.contains('\t') && line.contains('\t') {
        let i = choose|i: int| 0 <= i < line.len() && line[i] == '\t';
        if i < entry.name@.len() {
            assert(entry.name@[i] == '\t');
        }
    }
}

} // verus!
