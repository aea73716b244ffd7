//! The line protocol git speaks with a remote helper

use vstd::prelude::*;

use crate::index::{Index, IndexView};
use crate::push;
use crate::refs;
use crate::text;
use crate::text_laws;

verus! {

pub const URL_SCHEME: &'static str = "tape://";

/// What git asks for
#[derive(Debug)]
pub enum Command {
    /// Nothing more
    End,
    Capabilities,
    List,
    /// An option, none of which is supported
    Option,
    Fetch,
    /// A batch of refspecs, of which this is the first
    Push(String),
    Unsupported(String),
}

/// What git asks for
pub enum CommandView {
    End,
    Capabilities,
    List,
    Option,
    Fetch,
    Push(Seq<char>),
    Unsupported(Seq<char>),
}

impl View for Command {
    type V = CommandView;

    open spec fn view(&self) -> CommandView {
        match self {
            Command::End => CommandView::End,
            Command::Capabilities => CommandView::Capabilities,
            Command::List => CommandView::List,
            Command::Option => CommandView::Option,
            Command::Fetch => CommandView::Fetch,
            Command::Push(first) => CommandView::Push(first@),
            Command::Unsupported(message) => CommandView::Unsupported(message@),
        }
    }
}

/// What a line from git asks for
pub open spec fn command_in(line: Seq<char>) -> CommandView {
    let command = text::trimmed_end(line);
    if command.len() == 0 {
        CommandView::End
    } else if command == "capabilities"@ {
        CommandView::Capabilities
    } else if command == "list"@ || command == "list for-push"@ {
        CommandView::List
    } else if "option "@.is_prefix_of(command) {
        CommandView::Option
    } else if "fetch "@.is_prefix_of(command) {
        CommandView::Fetch
    } else {
        match text::after_prefix(command, "push "@) {
            Some(first) => CommandView::Push(first),
            None => CommandView::Unsupported(
                "unsupported command from git: `"@ + command + "`"@,
            ),
        }
    }
}

/// Read a line from git
pub fn parse_command(line: &str) -> (result: Command)
    ensures
        result@ == command_in(line@),
{
    let command = text::trim_end(line);
    if command.is_empty() {
        return Command::End;
    }
    if text::same(command, "capabilities") {
        return Command::Capabilities;
    }
    if text::same(command, "list") || text::same(command, "list for-push") {
        return Command::List;
    }
    if text::starts_with(command, "option ") {
        return Command::Option;
    }
    if text::starts_with(command, "fetch ") {
        return Command::Fetch;
    }
    match text::strip_prefix(command, "push ") {
        Some(first) => Command::Push(first.to_owned()),
        None => {
            let mut message = text::concat("unsupported command from git: `", command);
            message.append("`");
            Command::Unsupported(message)
        },
    }
}

/// The url git invoked the helper with
pub open spec fn url_among(arguments: Seq<Seq<char>>) -> Option<Seq<char>> {
    if arguments.len() > 2 {
        Some(arguments[2])
    } else if arguments.len() > 1 {
        Some(arguments[1])
    } else {
        None
    }
}

/// The tape address in the arguments git invoked the helper with, or what is wrong with them
pub open spec fn bucket_among(arguments: Seq<Seq<char>>) -> Result<Seq<char>, Seq<char>> {
    match url_among(arguments) {
        None => Err("usage: git-remote-tape <remote> "@ + "tape://"@ + "<bucket>"@),
        Some(url) => match text::after_prefix(url, "tape://"@) {
            None => Err("`"@ + url + "` is not a "@ + "tape://"@ + " url"@),
            Some(rest) => {
                let bucket = text::without_trailing(rest, '/');
                if bucket.len() == 0 {
                    Err("tape URL is missing its address"@)
                } else {
                    Ok(bucket)
                }
            },
        },
    }
}

/// The tape address in the arguments git invoked the helper with, program name first
pub fn bucket_from_args(arguments: &[String]) -> (bucket: Result<String, String>)
    ensures
        match bucket {
            Ok(bucket) => bucket_among(text::views(arguments@)) == Ok::<Seq<char>, Seq<char>>(
                bucket@,
            ),
            Err(message) => bucket_among(text::views(arguments@)) == Err::<Seq<char>, Seq<char>>(
                message@,
            ),
        },
{
    let url = if arguments.len() > 2 {
        arguments[2].as_str()
    } else if arguments.len() > 1 {
        arguments[1].as_str()
    } else {
        let mut message = text::concat("usage: git-remote-tape <remote> ", URL_SCHEME);
        message.append("<bucket>");
        return Err(message);
    };
    match text::strip_prefix(url, URL_SCHEME) {
        None => {
            let mut message = text::concat("`", url);
            message.append("` is not a ");
            message.append(URL_SCHEME);
            message.append(" url");
            Err(message)
        },
        Some(rest) => {
            let bucket = text::trim_end_matches(rest, '/');
            if bucket.is_empty() {
                Err("tape URL is missing its address".to_owned())
            } else {
                Ok(bucket.to_owned())
            }
        },
    }
}

/// What the helper can do, as git is told
pub fn capabilities() -> (text: String)
    ensures
        text@ == "fetch\npush\noption\n\n"@,
{
    "fetch\npush\noption\n\n".to_owned()
}

/// What git is told about an option
pub fn unsupported() -> (text: String)
    ensures
        text@ == "unsupported\n"@,
{
    "unsupported\n".to_owned()
}

/// What git is told once a fetch is done
pub fn fetched() -> (text: String)
    ensures
        text@ == "\n"@,
{
    "\n".to_owned()
}

/// Whether a batch goes on after a line, which is dropped
pub fn drain_batch(line: &str) -> (goes_on: bool)
    ensures
        goes_on == (text::trimmed_end(line@).len() > 0),
{
    !text::trim_end(line).is_empty()
}

/// What a line adds to a batch
pub open spec fn batch_item(line: Seq<char>, prefix: Seq<char>) -> Seq<char> {
    match text::after_prefix(text::trimmed_end(line), prefix) {
        Some(rest) => rest,
        None => text::trimmed_end(line),
    }
}

/// Add a line to a batch, unless it ends the batch
pub fn collect_batch(batch: &mut Vec<String>, line: &str, prefix: &str) -> (goes_on: bool)
    ensures
        goes_on == (text::trimmed_end(line@).len() > 0),
        text::views(final(batch)@) == if goes_on {
            text::views(old(batch)@).push(batch_item(line@, prefix@))
        } else {
            text::views(old(batch)@)
        },
{
    let ghost before = text::views(batch@);
    let line = text::trim_end(line);
    if line.is_empty() {
        return false;
    }
    let item = match text::strip_prefix(line, prefix) {
        Some(rest) => rest,
        None => line,
    };
    batch.push(item.to_owned());
    assert(text::views(batch@) =~= before.push(item@));
    true
}

/// One line per ref: the object id, then the name
pub open spec fn ref_lines(pairs: Seq<refs::Pair>) -> Seq<char>
    decreases pairs.len(),
{
    if pairs.len() == 0 {
        seq![]
    } else {
        ref_lines(pairs.drop_last()) + pairs.last().1 + " "@ + pairs.last().0 + "\n"@
    }
}

/// What git is told about the refs of an index
pub open spec fn advertised(index: IndexView) -> Seq<char> {
    let lines = ref_lines(refs::listing(index.refs));
    if push::is_live(index.head, index.refs) {
        lines + "@"@ + index.head->0 + " HEAD\n"@
    } else {
        lines
    }
}

/// What git is told about the refs of the remote, nothing having been pushed to it when there
/// is no index
pub fn list(index: Option<&Index>) -> (text: String)
    ensures
        text@ == match index {
            Some(index) => advertised(index@) + "\n"@,
            None => "\n"@,
        },
{
    let index = match index {
        Some(index) => index,
        None => {
            return "\n".to_owned();
        },
    };
    let n = index.refs.len();
    let ghost pairs = refs::listing(index@.refs);
    let mut text = String::new();
    let mut i: usize = 0;
    assert(text@ =~= ref_lines(pairs.take(0)));
    while i < n
        invariant
            i <= n,
            n == pairs.len(),
            pairs == refs::listing(index@.refs),
            text@ == ref_lines(pairs.take(i as int)),
        decreases n - i,
    {
        text.append(index.refs.id_at(i).as_str());
        text.append(" ");
        text.append(index.refs.name_at(i).as_str());
        text.append("\n");
        proof {
            let done = pairs.take(i + 1);
            assert(done.drop_last() =~= pairs.take(i as int));
            assert(done.last() == pairs[i as int]);
        }
        i = i + 1;
    }
    assert(pairs.take(pairs.len() as int) =~= pairs);
    if let Some(head) = &index.head {
        if index.refs.contains_key(head.as_str()) {
            text.append("@");
            text.append(head.as_str());
            text.append(" HEAD\n");
        }
    }
    text.append("\n");
    text
}

/// One line per ref, as lines
proof fn ref_lines_are_lines(pairs: Seq<refs::Pair>)
    ensures
        ref_lines(pairs) == text::as_lines(
            pairs.map_values(|pair: refs::Pair| pair.1.push(' ') + pair.0),
        ),
    decreases pairs.len(),
{
    reveal_strlit(" ");
    reveal_strlit("\n");
    assert(" "@ =~= seq![' ']);
    assert("\n"@ =~= seq!['\n']);
    let lines = pairs.map_values(|pair: refs::Pair| pair.1.push(' ') + pair.0);
    if pairs.len() == 0 {
        assert(lines =~= seq![]);
        assert(ref_lines(pairs) =~= text::as_lines(lines));
    } else {
        let init = pairs.drop_last();
        let before = init.map_values(|pair: refs::Pair| pair.1.push(' ') + pair.0);
        let line = pairs.last().1.push(' ') + pairs.last().0;
        ref_lines_are_lines(init);
        assert(lines =~= before.push(line));
        text_laws::lines_are_appended(before, line);
        assert(ref_lines(pairs) =~= ref_lines(init) + line.push('\n'));
    }
}

/// Nothing is told of an index without refs, and a ref whose name comes behind all others adds a
/// line at the end: its object id, a space and its name
pub proof fn refs_are_told_one_to_a_line(
    index: IndexView,
    name: Seq<char>,
    object_id: Seq<char>,
)
    requires
        index.refs.dom().finite(),
        index.head is None,
        forall|other: Seq<char>| #[trigger]
            index.refs.contains_key(other) ==> text::precedes(other, name),
    ensures
        advertised(IndexView { refs: Map::empty(), ..index }) == Seq::<char>::empty(),
        advertised(IndexView { refs: index.refs.insert(name, object_id), ..index }) == advertised(
            index,
        ) + (object_id.push(' ') + name).push('\n'),
{
    reveal_strlit(" ");
    reveal_strlit("\n");
    assert(" "@ =~= seq![' ']);
    assert("\n"@ =~= seq!['\n']);
    let none: Map<Seq<char>, Seq<char>> = Map::empty();
    assert(refs::is_listing(Seq::<refs::Pair>::empty(), none));
    refs::listing_is_unique(refs::listing(none), Seq::<refs::Pair>::empty(), none);
    assert(ref_lines(refs::listing(none)) =~= Seq::<char>::empty());
    refs::listing_exists(index.refs);
    let pairs = refs::listing(index.refs);
    let more = index.refs.insert(name, object_id);
    let longer = pairs.push((name, object_id));
    text::precedes_irreflexive(name);
    assert(!index.refs.contains_key(name));
    assert(refs::is_listing(longer, more)) by {
        assert forall|i: int, j: int| 0 <= i < j < longer.len() implies text::precedes(
            #[trigger] longer[i].0,
            #[trigger] longer[j].0,
        ) by {
            assert(longer[i] == pairs[i]);
            assert(index.refs.contains_key(pairs[i].0));
            if j < pairs.len() {
                assert(longer[j] == pairs[j]);
                assert(text::precedes(pairs[i].0, pairs[j].0));
            }
        }
        assert forall|i: int| 0 <= i < longer.len() implies more.contains_key(
            #[trigger] longer[i].0,
        ) && more[longer[i].0] == longer[i].1 by {
            if i < pairs.len() {
                assert(longer[i] == pairs[i]);
                assert(index.refs.contains_key(pairs[i].0));
            }
        }
        assert forall|other: Seq<char>| #[trigger] more.contains_key(other) implies exists|i: int|
            0 <= i < longer.len() && #[trigger] longer[i].0 == other by {
            if other == name {
                assert(longer[pairs.len() as int].0 == other);
            } else {
                assert(index.refs.contains_key(other));
                let i = choose|i: int| 0 <= i < pairs.len() && #[trigger] pairs[i].0 == other;
                assert(longer[i].0 == other);
            }
        }
    }
    refs::listing_is_unique(refs::listing(more), longer, more);
    assert(longer.drop_last() =~= pairs);
    assert(ref_lines(longer) =~= ref_lines(pairs) + (object_id.push(' ') + name).push('\n'));
}

/// HEAD is told last, on a line of its own that names the ref it points at, and only where that
/// ref is there; the refs are told the same with and without it
pub proof fn head_is_told_last(index: IndexView, head: Seq<char>)
    ensures
        ({
            let refs_alone = advertised(IndexView { head: None, ..index });
            let with_head = advertised(IndexView { head: Some(head), ..index });
            &&& index.refs.contains_key(head) ==> with_head == refs_alone + (seq!['@'] + head
                + seq![' ', 'H', 'E', 'A', 'D']).push('\n')
            &&& !index.refs.contains_key(head) ==> with_head == refs_alone
        }),
{
    reveal_strlit("@");
    reveal_strlit(" HEAD\n");
    assert("@"@ =~= seq!['@']);
    assert(" HEAD\n"@ =~= seq![' ', 'H', 'E', 'A', 'D', '\n']);
    let lines = advertised(IndexView { head: None, ..index });
    assert(lines + "@"@ + head + " HEAD\n"@ =~= lines + (seq!['@'] + head + seq![
        ' ',
        'H',
        'E',
        'A',
        'D',
    ]).push('\n'));
}

/// The refs that some advertised lines tell of: an object id, a space and a name on each that
/// does not open with an at sign
pub open spec fn refs_told(lines: Seq<Seq<char>>) -> Map<Seq<char>, Seq<char>>
    decreases lines.len(),
{
    if lines.len() == 0 {
        Map::empty()
    } else {
        let before = refs_told(lines.drop_last());
        let line = lines.last();
        if line.len() > 0 && line[0] == '@' {
            before
        } else {
            match text::split_at_first(line, ' ') {
                Some((object_id, name)) => before.insert(name, object_id),
                None => before,
            }
        }
    }
}

/// The HEAD that some advertised lines tell of: what stands between an at sign and ` HEAD` on the
/// last of them
pub open spec fn head_told(lines: Seq<Seq<char>>) -> Option<Seq<char>> {
    if lines.len() > 0 && lines.last().len() >= 6 && lines.last()[0] == '@' {
        Some(lines.last().subrange(1, lines.last().len() - 5))
    } else {
        None
    }
}

/// Whether a name and an object id can be told apart on one line: the id is a word that does not
/// open with an at sign, and neither breaks the line
pub open spec fn fit_a_line(name: Seq<char>, object_id: Seq<char>) -> bool {
    &&& object_id.len() > 0
    &&& object_id[0] != '@'
    &&& !object_id.contains(' ')
    &&& !object_id.contains('\n')
    &&& name.len() > 0
    &&& !name.contains('\n')
    &&& name.last() != '\r'
}

proof fn pairs_read_back(pairs: Seq<refs::Pair>)
    requires
        forall|i: int| 0 <= i < pairs.len() ==> fit_a_line((#[trigger] pairs[i]).0, pairs[i].1),
    ensures
        refs_told(pairs.map_values(|pair: refs::Pair| pair.1.push(' ') + pair.0)) == refs::map_of(
            pairs,
        ),
    decreases pairs.len(),
{
    let lines = pairs.map_values(|pair: refs::Pair| pair.1.push(' ') + pair.0);
    if pairs.len() > 0 {
        let init = pairs.drop_last();
        let last = pairs[pairs.len() - 1];
        assert(fit_a_line(last.0, last.1));
        assert forall|i: int| 0 <= i < init.len() implies fit_a_line(
            (#[trigger] init[i]).0,
            init[i].1,
        ) by {
            assert(init[i] == pairs[i]);
        }
        pairs_read_back(init);
        assert(lines.drop_last() =~= init.map_values(
            |pair: refs::Pair| pair.1.push(' ') + pair.0,
        ));
        assert(lines.last() == last.1.push(' ') + last.0);
        assert(lines.last()[0] == last.1[0]);
        text_laws::splits_come_together(last.1, ' ', last.0, lines.last());
    }
}

/// What git is told reads back, line by line, as the refs of the index and its own HEAD, that is
/// to say none where HEAD names no ref
pub proof fn advertisements_read_back(index: IndexView)
    requires
        index.refs.dom().finite(),
        forall|name: Seq<char>| #[trigger]
            index.refs.contains_key(name) ==> fit_a_line(name, index.refs[name]),
    ensures
        ({
            let lines = text::lines_of(advertised(index));
            &&& refs_told(lines) == index.refs
            &&& head_told(lines) == if index.head is Some && index.refs.contains_key(
                index.head->0,
            ) {
                index.head
            } else {
                None
            }
            &&& lines.len() == index.refs.dom().len() + if head_told(lines) is Some {
                1int
            } else {
                0int
            }
        }),
{
    refs::listing_exists(index.refs);
    let pairs = refs::listing(index.refs);
    refs::listing_builds_its_map(pairs, index.refs);
    refs::ascending_lists_its_map(pairs);
    assert forall|i: int| 0 <= i < pairs.len() implies fit_a_line(
        (#[trigger] pairs[i]).0,
        pairs[i].1,
    ) by {
        assert(index.refs.contains_key(pairs[i].0));
    }
    pairs_read_back(pairs);
    ref_lines_are_lines(pairs);
    let lines = pairs.map_values(|pair: refs::Pair| pair.1.push(' ') + pair.0);
    assert forall|i: int| 0 <= i < lines.len() implies !(#[trigger] lines[i]).contains('\n') && (
    lines[i].len() == 0 || lines[i].last() != '\r') && lines[i].len() > 0 && lines[i][0]
        != '@' by {
        let (name, object_id) = pairs[i];
        assert(fit_a_line(pairs[i].0, pairs[i].1));
        assert(lines[i] == object_id.push(' ') + name);
        assert(lines[i].last() == name.last());
        assert(lines[i][0] == object_id[0]);
        if lines[i].contains('\n') {
            let k = choose|k: int| 0 <= k < lines[i].len() && lines[i][k] == '\n';
            if k < object_id.len() {
                assert(object_id[k] == '\n');
            } else if k > object_id.len() {
                assert(name[k - object_id.len() - 1] == '\n');
            }
        }
    }
    if index.head is Some && index.refs.contains_key(index.head->0) {
        let head = index.head->0;
        let line = seq!['@'] + head + seq![' ', 'H', 'E', 'A', 'D'];
        head_is_told_last(index, head);
        assert(fit_a_line(head, index.refs[head]));
        let all = lines.push(line);
        text_laws::lines_are_appended(lines, line);
        assert(advertised(index) == text::as_lines(all));
        assert(!line.contains('\n')) by {
            if line.contains('\n') {
                let k = choose|k: int| 0 <= k < line.len() && line[k] == '\n';
                if 0 < k <= head.len() {
                    assert(head[k - 1] == '\n');
                }
            }
        }
        assert(line.last() == 'D');
        assert forall|i: int| 0 <= i < all.len() implies !(#[trigger] all[i]).contains('\n') && (
        all[i].len() == 0 || all[i].last() != '\r') by {
            if i < lines.len() {
                assert(all[i] == lines[i]);
            }
        }
        text_laws::written_lines_are_read(all);
        assert(all.drop_last() =~= lines);
        assert(line[0] == '@');
        assert(line.subrange(1, line.len() - 5) =~= head);
    } else {
        text_laws::written_lines_are_read(lines);
        if lines.len() > 0 {
            assert(lines[lines.len() - 1][0] != '@');
        }
    }
}

/// What git asks for is told apart by the words it opens with, whatever whitespace ends the line
pub proof fn commands_are_told_apart(rest: Seq<char>, white: Seq<char>)
    requires
        rest.len() > 0,
        !text::is_white_space(rest.last()),
        forall|i: int| 0 <= i < white.len() ==> text::is_white_space(#[trigger] white[i]),
    ensures
        command_in(white) == CommandView::End,
        command_in("capabilities"@ + white) == CommandView::Capabilities,
        command_in("list"@ + white) == CommandView::List,
        command_in("list for-push"@ + white) == CommandView::List,
        command_in("option "@ + rest + white) == CommandView::Option,
        command_in("fetch "@ + rest + white) == CommandView::Fetch,
        command_in("push "@ + rest + white) == CommandView::Push(rest),
{
    reveal_strlit("capabilities");
    reveal_strlit("list");
    reveal_strlit("list for-push");
    reveal_strlit("option ");
    reveal_strlit("fetch ");
    reveal_strlit("push ");
    assert(seq![] + white =~= white);
    text_laws::trailing_whitespace_is_dropped(seq![], white);
    text_laws::trailing_whitespace_is_dropped("capabilities"@, white);
    text_laws::trailing_whitespace_is_dropped("list"@, white);
    text_laws::trailing_whitespace_is_dropped("list for-push"@, white);
    text_laws::trailing_whitespace_is_dropped("option "@ + rest, white);
    text_laws::trailing_whitespace_is_dropped("fetch "@ + rest, white);
    text_laws::trailing_whitespace_is_dropped("push "@ + rest, white);
    assert(("option "@ + rest)[0] == 'o');
    assert(("fetch "@ + rest)[0] == 'f');
    assert(("push "@ + rest)[0] == 'p');
    assert("capabilities"@[0] == 'c');
    assert("list"@[0] == 'l' && "list for-push"@[0] == 'l');
    assert("option "@[0] == 'o' && "fetch "@[0] == 'f');
    text_laws::prefixes_come_off("push "@, rest, "push "@ + rest);
}

/// A line that opens with none of the words git may use is turned down, and quoted
pub proof fn other_commands_are_turned_down(line: Seq<char>)
    ensures
        ({
            let command = text::trimmed_end(line);
            let known = {
                ||| command.len() == 0
                ||| command == "capabilities"@
                ||| command == "list"@
                ||| command == "list for-push"@
                ||| "option "@.is_prefix_of(command)
                ||| "fetch "@.is_prefix_of(command)
                ||| "push "@.is_prefix_of(command)
            };
            &&& !known <==> command_in(line) is Unsupported
            &&& !known ==> text_laws::mentions(command_in(line)->Unsupported_0, command)
        }),
{
    let command = text::trimmed_end(line);
    if command_in(line) is Unsupported {
        text_laws::mentioned(
            command_in(line)->Unsupported_0,
            "unsupported command from git: `"@,
            command,
            "`"@,
        );
    }
}

/// The url is the third of the arguments that git gives, the name of the remote coming before
/// it, or the second where there are no more
pub proof fn urls_come_last(arguments: Seq<Seq<char>>)
    ensures
        arguments.len() < 2 <==> url_among(arguments) is None,
        arguments.len() == 2 ==> url_among(arguments) == Some(arguments[1]),
        arguments.len() > 2 ==> url_among(arguments) == Some(arguments[2]),
{
}

/// The address in a `tape://` url is what follows, without the slashes at its end; there has to
/// be one
pub proof fn addresses_are_found(
    arguments: Seq<Seq<char>>,
    bucket: Seq<char>,
    slashes: Seq<char>,
)
    requires
        bucket.len() == 0 || bucket.last() != '/',
        forall|i: int| 0 <= i < slashes.len() ==> #[trigger] slashes[i] == '/',
        url_among(arguments) == Some("tape://"@ + bucket + slashes),
    ensures
        bucket.len() > 0 ==> bucket_among(arguments) == Ok::<Seq<char>, Seq<char>>(bucket),
        bucket.len() == 0 ==> bucket_among(arguments) is Err,
{
    let url = "tape://"@ + bucket + slashes;
    assert(url =~= "tape://"@ + (bucket + slashes));
    text_laws::prefixes_come_off("tape://"@, bucket + slashes, url);
    text_laws::trailing_run_is_dropped(bucket, '/', slashes);
}

/// Without a url there is no address; a url of another scheme is turned down, and quoted; and what
/// is found of one is never empty, never ends in a slash, and opens the rest of the url
pub proof fn only_tape_urls_have_addresses(arguments: Seq<Seq<char>>)
    ensures
        ({
            let found = bucket_among(arguments);
            match url_among(arguments) {
                None => found is Err,
                Some(url) => {
                    &&& !"tape://"@.is_prefix_of(url) ==> found is Err && text_laws::mentions(
                        found->Err_0,
                        url,
                    )
                    &&& found matches Ok(bucket) ==> {
                        &&& bucket.len() > 0
                        &&& bucket.last() != '/'
                        &&& ("tape://"@ + bucket).is_prefix_of(url)
                    }
                },
            }
        }),
{
    let found = bucket_among(arguments);
    if let Some(url) = url_among(arguments) {
        if !"tape://"@.is_prefix_of(url) {
            text_laws::mentioned(
                found->Err_0,
                "`"@,
                url,
                "` is not a "@ + "tape://"@ + " url"@,
            );
        } else {
            let rest = text::after_prefix(url, "tape://"@)->0;
            text_laws::prefixes_come_off("tape://"@, rest, url);
            text_laws::trailing_characters_are_dropped(rest, '/');
            let bucket = text::without_trailing(rest, '/');
            assert(url.take(("tape://"@ + bucket).len() as int) =~= "tape://"@ + bucket);
        }
    }
}

/// A line of a batch adds what follows the word that the batch is of, or the whole line where it
/// does not open with that word, without the whitespace at its end
pub proof fn batches_are_collected(prefix: Seq<char>, rest: Seq<char>, white: Seq<char>)
    requires
        rest.len() > 0,
        !text::is_white_space(rest.last()),
        forall|i: int| 0 <= i < white.len() ==> text::is_white_space(#[trigger] white[i]),
    ensures
        batch_item(prefix + rest + white, prefix) == rest,
        !prefix.is_prefix_of(rest) ==> batch_item(rest + white, prefix) == rest,
{
    assert((prefix + rest).last() == rest.last());
    text_laws::trailing_whitespace_is_dropped(prefix + rest, white);
    text_laws::trailing_whitespace_is_dropped(rest, white);
    text_laws::prefixes_come_off(prefix, rest, prefix + rest);
}

} // verus!
