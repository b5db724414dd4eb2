//! What is typed at the prompts.

use vstd::prelude::*;

use crate::text::{eq_ignoring_case, text_after_last, text_before_first, trim};

verus! {

/// What is asked for.
pub enum Command {
    /// To leave.
    Exit,
    /// Nothing.
    Nothing,
    /// To fetch `url` into the file `target`.
    Fetch { url: String, target: String },
}

pub enum CommandView {
    Exit,
    Nothing,
    Fetch { url: Seq<char>, target: Seq<char> },
}

impl View for Command {
    type V = CommandView;

    open spec fn view(&self) -> CommandView {
        match *self {
            Command::Exit => CommandView::Exit,
            Command::Nothing => CommandView::Nothing,
            Command::Fetch { url, target } => CommandView::Fetch { url: url@, target: target@ },
        }
    }
}

/// The name of the file that a URL leads to: what follows its last slash, up to
/// a question mark.
pub open spec fn file_name(url: Seq<char>) -> Seq<char> {
    crate::text::before_first(crate::text::after_last(url, '/'), '?')
}

/// Where the file that a URL leads to is put.
pub open spec fn target_path(url: Seq<char>) -> Seq<char> {
    "./downloads/"@ + file_name(url)
}

/// What a line asks for. The white space round it is of no account.
pub open spec fn command_in(line: Seq<char>) -> CommandView {
    let url = crate::text::trimmed(line);
    if crate::text::same_ignoring_case(url, "exit"@) {
        CommandView::Exit
    } else if url.len() == 0 {
        CommandView::Nothing
    } else {
        CommandView::Fetch { url, target: target_path(url) }
    }
}

/// What a line that was typed asks for.
pub fn read_command(line: &str) -> (command: Command)
    ensures
        command@ == command_in(line@),
{
    let url: &str = trim(line);
    if eq_ignoring_case(url, "exit") {
        Command::Exit
    } else if url.is_empty() {
        Command::Nothing
    } else {
        let last: String = text_after_last(url, '/');
        let name: String = text_before_first(last.as_str(), '?');
        let mut target: String = "./downloads/".to_owned();
        target.append(name.as_str());
        Command::Fetch { url: url.to_owned(), target }
    }
}

/// The hash that a line gives, if it gives one.
pub open spec fn hash_in(line: Seq<char>) -> Option<Seq<char>> {
    let hash = crate::text::trimmed(line);
    if hash.len() == 0 {
        None
    } else {
        Some(hash)
    }
}

/// The hash that was typed, or none where the line is left empty.
pub fn read_hash(line: &str) -> (hash: Option<String>)
    ensures
        crate::text::text_view(hash) == hash_in(line@),
{
    let hash: &str = trim(line);
    if hash.is_empty() {
        None
    } else {
        Some(hash.to_owned())
    }
}

/// Whatever the URL, the name of the file holds no slash and no question mark,
/// so that the file is put right into the directory for downloads.
pub proof fn file_names_are_plain(url: Seq<char>)
    ensures
        forall|i: int|
            0 <= i < file_name(url).len() ==> #[trigger] file_name(url)[i] != '/' && file_name(
                url,
            )[i] != '?',
{
    let last = crate::text::after_last(url, '/');
    crate::text::lemma_find_back(url, '/', url.len() as int);
    crate::text::lemma_find_from(last, '?', 0);
    assert forall|i: int| 0 <= i < file_name(url).len() implies #[trigger] file_name(url)[i] != '/'
        && file_name(url)[i] != '?' by {
        assert(file_name(url)[i] == last[i]);
        let start = crate::text::find_back(url, '/', url.len() as int) + 1;
        assert(last[i] == url[start + i]);
    }
}

/// A line that is white space and nothing else asks for nothing, and gives no
/// hash. White space round a line makes no difference.
pub proof fn white_space_round_a_line_makes_no_difference(
    front: Seq<char>,
    line: Seq<char>,
    back: Seq<char>,
)
    requires
        forall|i: int| 0 <= i < front.len() ==> crate::text::is_white_space(#[trigger] front[i]),
        forall|i: int| 0 <= i < back.len() ==> crate::text::is_white_space(#[trigger] back[i]),
        line.len() > 0 ==> !crate::text::is_white_space(line[0]) && !crate::text::is_white_space(
            line[line.len() - 1],
        ),
    ensures
        line.len() == 0 ==> command_in(front + line + back) == CommandView::Nothing && hash_in(
            front + line + back,
        ) is None,
        line.len() > 0 ==> command_in(front + line + back) == command_in(line) && hash_in(
            front + line + back,
        ) == Some(line),
{
    let empty = Seq::<char>::empty();
    crate::text::only_white_space_is_cut_off(front, line, back);
    crate::text::only_white_space_is_cut_off(empty, line, empty);
    assert(empty + line + empty =~= line);
    reveal_strlit("exit");
}

/// The word `exit`, with each letter small or a capital, asks to leave; any
/// other line, without white space at its ends, is a URL that is fetched.
pub proof fn every_line_but_exit_is_a_url(line: Seq<char>)
    requires
        line.len() > 0,
        !crate::text::is_white_space(line[0]),
        !crate::text::is_white_space(line[line.len() - 1]),
    ensures
        ({
            let leaves = {
                &&& line.len() == 4
                &&& line[0] == 'e' || line[0] == 'E'
                &&& line[1] == 'x' || line[1] == 'X'
                &&& line[2] == 'i' || line[2] == 'I'
                &&& line[3] == 't' || line[3] == 'T'
            };
            match command_in(line) {
                CommandView::Exit => leaves,
                CommandView::Nothing => false,
                CommandView::Fetch { url, target } => !leaves && url == line && target
                    == target_path(line),
            }
        }),
{
    let empty = Seq::<char>::empty();
    crate::text::only_white_space_is_cut_off(empty, line, empty);
    assert(empty + line + empty =~= line);
    reveal_strlit("exit");
    crate::text::only_the_case_of_letters_is_of_no_account(line, "exit"@);
    if crate::text::same_ignoring_case(line, "exit"@) {
        assert(line[0] == line[0] && line[1] == line[1] && line[2] == line[2] && line[3]
            == line[3]);
    }
}

/// A file is put into the directory for downloads under the last name in its
/// URL, without the query behind it.
pub proof fn files_get_the_last_name_in_their_url(
    before: Seq<char>,
    name: Seq<char>,
    query: Seq<char>,
)
    requires
        !name.contains('/'),
        !name.contains('?'),
        !query.contains('/'),
        query.len() > 0 ==> query[0] == '?',
    ensures
        target_path(before + seq!['/'] + name + query) == "./downloads/"@ + name,
        target_path(name + query) == "./downloads/"@ + name,
{
    let last = name + query;
    assert(!last.contains('/')) by {
        if last.contains('/') {
            let i = choose|i: int| 0 <= i < last.len() && last[i] == '/';
            if i < name.len() {
                assert(name[i] == '/');
            } else {
                assert(query[i - name.len()] == '/');
            }
        }
    }
    crate::text::texts_split_where_they_were_joined(last, last, last, before, '/');
    assert(before + seq!['/'] + name + query =~= before + seq!['/'] + last);
    if query.len() > 0 {
        let rest = query.skip(1);
        crate::text::texts_split_where_they_were_joined(name, name, name, rest, '?');
        assert(last =~= name + seq!['?'] + rest);
    } else {
        crate::text::texts_split_where_they_were_joined(name, name, name, query, '?');
        assert(last =~= name);
    }
}

/// What is asked for shows what it holds.
pub proof fn commands_show_what_they_hold(url: String, target: String)
    ensures
        Command::Exit@ == CommandView::Exit,
        Command::Nothing@ == CommandView::Nothing,
        (Command::Fetch { url, target })@ == (CommandView::Fetch { url: url@, target: target@ }),
{
}

} // verus!
