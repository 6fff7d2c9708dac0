//! A listing request: what to ask the repository for, and what to show of
//! its answer.
//!
//! Nothing here reads or prints. A request is turned into a [`Query`]; the
//! caller runs the query and hands the answer back; the answer is turned
//! into [`Output`]s, each a text and the stream it belongs on.

use vstd::prelude::*;
use vstd::string::*;
use crate::listing::{pick, Listing, ObjectSummary, ObjectVersionView};
use crate::order::Field;
use crate::render::{format_listing, line_text};
use crate::sort::{is_stable_order, sorted_order};
use crate::text::{chain_text, join_chain, views};
use crate::version::{parse_version, ListError, VersionId};

verus! {

/// The `ls` request.
#[derive(Debug)]
pub struct List {
    /// Long format: version, update time, name.
    pub long: bool,
    /// Show the storage path of each item.
    pub physical: bool,
    /// Show the digest of each item that has one.
    pub digest: bool,
    /// The version of the object to list.
    pub version: Option<i64>,
    /// The field to sort the files of an object by.
    pub sort: Field,
    /// Negate the sort.
    pub reverse: bool,
    /// The object to list; all objects are listed without it.
    pub object_id: Option<String>,
}

/// The subcommands.
#[derive(Debug)]
pub enum Command {
    List(List),
}

/// The arguments of one invocation.
#[derive(Debug)]
pub struct AppArgs {
    /// Path of the storage root.
    pub root: Option<String>,
    /// Suppress error messages.
    pub quiet: bool,
    /// The subcommand.
    pub command: Command,
}

/// What a request asks of the repository.
#[derive(Debug)]
pub enum Query {
    /// Enumerate all objects.
    ListObjects,
    /// Look one object up, at its head or at a given version.
    GetObject { object_id: String, version: Option<VersionId> },
}

/// One piece of output.
#[derive(Debug)]
pub enum Output {
    /// A line for standard output.
    Line(String),
    /// A message for the error stream.
    Error(String),
}

/// An output as text.
pub enum Shown {
    Line(Seq<char>),
    Error(Seq<char>),
}

impl View for Output {
    type V = Shown;

    open spec fn view(&self) -> Shown {
        match self {
            Output::Line(s) => Shown::Line(s@),
            Output::Error(s) => Shown::Error(s@),
        }
    }
}

/// The views of a vector of outputs.
pub open spec fn shown(outputs: Seq<Output>) -> Seq<Shown> {
    outputs.map_values(|o: Output| o@)
}

/// Each text as a line for standard output.
pub open spec fn as_lines(texts: Seq<Seq<char>>) -> Seq<Shown> {
    texts.map_values(|t: Seq<char>| Shown::Line(t))
}

/// What is said of a version selector below 1.
pub open spec fn configuration_message() -> Seq<char> {
    "version numbers must be greater than 0"@
}

/// The message of an error: for a repository failure its cause chain,
/// outermost first, joined by `": "`.
pub open spec fn error_text(error: ListError) -> Seq<char> {
    match error {
        ListError::Configuration => configuration_message(),
        ListError::RepositoryQuery(chain) => chain_text(views(chain@)),
    }
}

/// An error as it is reported: `Error: ` and the message.
pub open spec fn error_line(error: ListError) -> Seq<char> {
    "Error: "@ + error_text(error)
}

/// The line that says an object, or one version of it, is not there.
pub open spec fn not_found_text(object_id: Seq<char>, version: Option<VersionId>) -> Seq<char> {
    match version {
        Some(v) => "Object "@ + object_id + " version "@ + VersionId::text_of(v.value())
            + " was not found"@,
        None => "Object "@ + object_id + " was not found"@,
    }
}

/// The files of an object version as entries, in the order of `state`.
pub open spec fn file_listings<'a>(object: &'a ObjectVersionView) -> Seq<Listing<'a>> {
    Seq::new(
        object.state@.len(),
        |i: int|
            Listing::of_file(
                &object.state@[i].path,
                &object.state@[i].details,
                &object.digest_algorithm,
            ),
    )
}

/// `texts` is the listing of `object` under `command`: one line per file,
/// in the stable order of the files by the sort field.
pub open spec fn is_contents_listing(
    object: &ObjectVersionView,
    command: &List,
    texts: Seq<Seq<char>>,
) -> bool {
    exists|p: Seq<usize>|
        {
            &&& #[trigger] is_stable_order(file_listings(object), command.sort, command.reverse, p)
            &&& texts.len() == p.len()
            &&& forall|i: int|
                0 <= i < p.len() ==> #[trigger] texts[i] == line_text(
                    pick(file_listings(object), p, i),
                    command.long,
                    command.physical,
                    command.digest,
                )
        }
}

/// What one element of the enumeration of all objects puts out: its line,
/// or, where the element failed, the error, unless errors are silenced.
pub open spec fn object_report(
    item: Result<ObjectSummary, ListError>,
    command: &List,
    quiet: bool,
) -> Seq<Shown> {
    match item {
        Ok(object) => seq![
            Shown::Line(
                line_text(
                    Listing::of_object(&object),
                    command.long,
                    command.physical,
                    command.digest,
                ),
            ),
        ],
        Err(error) => if quiet {
            Seq::empty()
        } else {
            seq![Shown::Error(error_line(error))]
        },
    }
}

/// What an enumeration of all objects puts out: the reports of its
/// elements, one after the other in the order of the enumeration.
pub open spec fn objects_report(
    items: Seq<Result<ObjectSummary, ListError>>,
    command: &List,
    quiet: bool,
) -> Seq<Shown>
    decreases items.len(),
{
    if items.len() == 0 {
        Seq::empty()
    } else {
        objects_report(items.drop_last(), command, quiet) + object_report(
            items.last(),
            command,
            quiet,
        )
    }
}

/// What an enumeration puts out is what its first part puts out, followed
/// by what the rest puts out: a failed element changes nothing about the
/// elements before or after it.
pub proof fn lemma_report_splits(
    first: Seq<Result<ObjectSummary, ListError>>,
    rest: Seq<Result<ObjectSummary, ListError>>,
    command: &List,
    quiet: bool,
)
    ensures
        objects_report(first + rest, command, quiet) == objects_report(first, command, quiet)
            + objects_report(rest, command, quiet),
    decreases rest.len(),
{
    if rest.len() == 0 {
        assert(first + rest =~= first);
        assert(objects_report(first, command, quiet) + objects_report(rest, command, quiet)
            =~= objects_report(first, command, quiet));
    } else {
        assert((first + rest).drop_last() =~= first + rest.drop_last());
        assert((first + rest).last() == rest.last());
        lemma_report_splits(first, rest.drop_last(), command, quiet);
        assert(objects_report(first, command, quiet) + (objects_report(
            rest.drop_last(),
            command,
            quiet,
        ) + object_report(rest.last(), command, quiet)) =~= (objects_report(first, command, quiet)
            + objects_report(rest.drop_last(), command, quiet)) + object_report(
            rest.last(),
            command,
            quiet,
        ));
    }
}

/// `r` is the decision on `command`. Without an object all objects are
/// enumerated, whatever the version selector holds. With an object the
/// selector is checked first: one below 1 is a configuration error, and
/// otherwise the object is looked up, at the selected version if there is
/// one.
pub open spec fn decides(command: &List, r: Result<Query, ListError>) -> bool {
    match command.object_id {
        None => r is Ok && r->Ok_0 is ListObjects,
        Some(object_id) => match command.version {
            None => r is Ok && r->Ok_0 is GetObject && r->Ok_0->object_id@ == object_id@
                && r->Ok_0->version is None,
            Some(n) => if n < 1 {
                r is Err && r->Err_0 is Configuration
            } else {
                r is Ok && r->Ok_0 is GetObject && r->Ok_0->object_id@ == object_id@
                    && r->Ok_0->version is Some && r->Ok_0->version->Some_0.value() == n
            },
        },
    }
}

/// Decides what to ask the repository for, before anything is asked.
pub fn list_command(command: &List) -> (r: Result<Query, ListError>)
    ensures
        decides(command, r),
{
    match &command.object_id {
        Some(object_id) => match parse_version(command.version) {
            Ok(version) => Ok(Query::GetObject { object_id: object_id.clone(), version }),
            Err(e) => Err(e),
        },
        None => Ok(Query::ListObjects),
    }
}

/// Decides what to ask the repository for on behalf of an invocation: the
/// decision of its subcommand.
pub fn exec_command(args: &AppArgs) -> (r: Result<Query, ListError>)
    ensures
        match args.command {
            Command::List(command) => decides(&command, r),
        },
{
    match &args.command {
        Command::List(list) => list_command(list),
    }
}

/// The line of one object of the repository.
pub fn print_object(object: &ObjectSummary, command: &List) -> (r: String)
    ensures
        r@ == line_text(
            Listing::of_object(object),
            command.long,
            command.physical,
            command.digest,
        ),
{
    let listing = Listing::from_object(object);
    format_listing(&listing, command.long, command.physical, command.digest)
}

/// The lines of the files of one object version, stably sorted by the
/// field of the request.
pub fn print_object_contents(object: &ObjectVersionView, command: &List) -> (r: Vec<String>)
    ensures
        r@.len() == object.state@.len(),
        is_contents_listing(object, command, views(r@)),
{
    let mut listings: Vec<Listing> = Vec::new();
    let mut i: usize = 0;
    while i < object.state.len()
        invariant
            i <= object.state.len(),
            listings@ =~= file_listings(object).take(i as int),
        decreases object.state.len() - i,
    {
        let entry = &object.state[i];
        listings.push(Listing::new(&entry.path, &entry.details, &object.digest_algorithm));
        i += 1;
    }
    assert(listings@ =~= file_listings(object));
    let order = sorted_order(&listings, command.sort, command.reverse);
    let mut lines: Vec<String> = Vec::new();
    let mut n: usize = 0;
    while n < order.len()
        invariant
            n <= order.len(),
            lines.len() == n,
            listings@ == file_listings(object),
            is_stable_order(listings@, command.sort, command.reverse, order@),
            forall|m: int|
                0 <= m < n ==> #[trigger] lines@[m]@ == line_text(
                    pick(listings@, order@, m),
                    command.long,
                    command.physical,
                    command.digest,
                ),
        decreases order.len() - n,
    {
        let line = format_listing(
            &listings[order[n]],
            command.long,
            command.physical,
            command.digest,
        );
        lines.push(line);
        n += 1;
    }
    proof {
        let texts = views(lines@);
        assert forall|m: int| 0 <= m < order@.len() implies #[trigger] texts[m] == line_text(
            pick(file_listings(object), order@, m),
            command.long,
            command.physical,
            command.digest,
        ) by {
            assert(texts[m] == lines@[m]@);
        }
        assert(is_stable_order(file_listings(object), command.sort, command.reverse, order@));
    }
    lines
}

/// The report of an error: `Error: ` and the message with its causes, or
/// nothing where errors are silenced.
pub fn print_err(error: &ListError, quiet: bool) -> (r: Option<String>)
    ensures
        quiet ==> r is None,
        !quiet ==> r is Some && r->Some_0@ == error_line(*error),
{
    if quiet {
        return None;
    }
    let mut out = String::new();
    out.append("Error: ");
    match error {
        ListError::Configuration => {
            out.append("version numbers must be greater than 0");
        },
        ListError::RepositoryQuery(chain) => {
            let message = join_chain(chain);
            out.append(message.as_str());
        },
    }
    assert(out@ =~= error_line(*error));
    Some(out)
}

/// The line that says an object, or the asked-for version of it, was not
/// found.
pub fn not_found_line(object_id: &str, version: Option<VersionId>) -> (r: String)
    ensures
        r@ == not_found_text(object_id@, version),
{
    let mut out = String::new();
    out.append("Object ");
    out.append(object_id);
    match version {
        Some(v) => {
            let text = v.version_str();
            out.append(" version ");
            out.append(text.as_str());
        },
        None => {},
    }
    out.append(" was not found");
    assert(out@ =~= not_found_text(object_id@, version));
    out
}

/// What one element of the enumeration of all objects puts out. A failed
/// element gives its error and no line; the elements after it are not
/// affected.
pub fn report_object(item: &Result<ObjectSummary, ListError>, command: &List, quiet: bool) -> (r:
    Vec<Output>)
    ensures
        shown(r@) == object_report(*item, command, quiet),
{
    let mut out: Vec<Output> = Vec::new();
    match item {
        Ok(object) => {
            out.push(Output::Line(print_object(object, command)));
        },
        Err(error) => {
            match print_err(error, quiet) {
                Some(message) => {
                    out.push(Output::Error(message));
                },
                None => {},
            }
        },
    }
    assert(shown(out@) =~= object_report(*item, command, quiet));
    out
}

/// What a finite enumeration of all objects puts out, element by element.
pub fn report_objects(items: &Vec<Result<ObjectSummary, ListError>>, command: &List, quiet: bool) -> (r:
    Vec<Output>)
    ensures
        shown(r@) == objects_report(items@, command, quiet),
{
    let mut out: Vec<Output> = Vec::new();
    let mut i: usize = 0;
    assert(shown(out@) =~= objects_report(items@.take(0), command, quiet));
    while i < items.len()
        invariant
            i <= items.len(),
            shown(out@) == objects_report(items@.take(i as int), command, quiet),
        decreases items.len() - i,
    {
        let ghost before = out@;
        let mut part = report_object(&items[i], command, quiet);
        out.append(&mut part);
        i += 1;
        proof {
            let next = items@.take(i as int);
            assert(next.drop_last() =~= items@.take(i - 1));
            assert(next.last() == items@[i - 1]);
            assert(shown(out@) =~= shown(before) + object_report(items@[i - 1], command, quiet));
        }
    }
    assert(items@.take(i as int) =~= items@);
    out
}

/// What the answer to a lookup puts out. A found object gives the lines of
/// its files; an absent one gives one line on standard output that names
/// the object and, where one was asked for, the version; a failure gives
/// its error, unless errors are silenced.
pub fn report_lookup(
    found: &Result<Option<ObjectVersionView>, ListError>,
    object_id: &str,
    version: Option<VersionId>,
    command: &List,
    quiet: bool,
) -> (r: Vec<Output>)
    ensures
        match *found {
            Ok(Some(object)) => exists|texts: Seq<Seq<char>>|
                #[trigger] is_contents_listing(&object, command, texts) && shown(r@) == as_lines(
                    texts,
                ),
            Ok(None) => shown(r@) == seq![Shown::Line(not_found_text(object_id@, version))],
            Err(error) => shown(r@) == (if quiet {
                Seq::<Shown>::empty()
            } else {
                seq![Shown::Error(error_line(error))]
            }),
        },
{
    let mut out: Vec<Output> = Vec::new();
    match found {
        Ok(Some(object)) => {
            let lines = print_object_contents(object, command);
            let ghost texts = views(lines@);
            let mut i: usize = 0;
            while i < lines.len()
                invariant
                    i <= lines.len(),
                    texts == views(lines@),
                    shown(out@) =~= as_lines(texts).take(i as int),
                decreases lines.len() - i,
            {
                let ghost before = out@;
                let line = lines[i].clone();
                assert(line@ == texts[i as int]);
                out.push(Output::Line(line));
                i += 1;
                assert(shown(out@) =~= shown(before).push(Shown::Line(texts[i - 1])));
            }
            assert(shown(out@) =~= as_lines(texts));
        },
        Ok(None) => {
            out.push(Output::Line(not_found_line(object_id, version)));
            assert(shown(out@) =~= seq![Shown::Line(not_found_text(object_id@, version))]);
        },
        Err(error) => {
            match print_err(error, quiet) {
                Some(message) => {
                    out.push(Output::Error(message));
                },
                None => {},
            }
            assert(shown(out@) =~= (if quiet {
                Seq::<Shown>::empty()
            } else {
                seq![Shown::Error(error_line(*error))]
            }));
        },
    }
    out
}

} // verus!
