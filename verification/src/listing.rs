//! The table in which a listing is shown: one line per file, smallest file
//! first, path and size separated by a tab.

use crate::packet::{File, FileView, files_view};
use humansize::{BINARY, format_size};
use vstd::prelude::*;
use vstd::string::StringExecFns;

verus! {

/// The text that `humansize` gives for `size` in binary units.
pub uninterp spec fn human_size(size: u64) -> Seq<char>;

/// `humansize::format_size` with `BINARY`: `size` in words, in units of
/// 1024, such as `1.50 KiB`.
#[verifier::external_body]
fn size_text(size: u64) -> (text: String)
    ensures
        text@ == human_size(size),
{
    format_size(size, BINARY)
}

/// `sorted` with `file` put behind all files that are no larger.
pub open spec fn placed(sorted: Seq<FileView>, file: FileView) -> Seq<FileView>
    decreases sorted.len(),
{
    if sorted.len() == 0 {
        seq![file]
    } else if sorted.last().size <= file.size {
        sorted.push(file)
    } else {
        placed(sorted.drop_last(), file).push(sorted.last())
    }
}

/// `files` in the order of their sizes, files of one size in the order in
/// which they came.
pub open spec fn by_size(files: Seq<FileView>) -> Seq<FileView>
    decreases files.len(),
{
    if files.len() == 0 {
        Seq::empty()
    } else {
        placed(by_size(files.drop_last()), files.last())
    }
}

/// Whether no file is followed by a smaller one.
pub open spec fn ascending(files: Seq<FileView>) -> bool {
    forall|i: int, j: int| 0 <= i < j < files.len() ==> files[i].size <= files[j].size
}

/// Placing a file is inserting it where the larger files begin.
proof fn lemma_placed_is_insert(sorted: Seq<FileView>, file: FileView, at: int)
    requires
        0 <= at <= sorted.len(),
        forall|k: int| at <= k < sorted.len() ==> sorted[k].size > file.size,
        at > 0 ==> sorted[at - 1].size <= file.size,
    ensures
        placed(sorted, file) == sorted.insert(at, file),
    decreases sorted.len(),
{
    if sorted.len() == 0 {
        assert(sorted.insert(at, file) =~= seq![file]);
    } else if sorted.last().size <= file.size {
        assert(at == sorted.len());
        assert(sorted.insert(at, file) =~= sorted.push(file));
    } else {
        assert(at < sorted.len());
        lemma_placed_is_insert(sorted.drop_last(), file, at);
        assert(sorted.drop_last().insert(at, file).push(sorted.last()) =~= sorted.insert(
            at,
            file,
        ));
    }
}

/// Placing a file keeps an ascending list ascending, and adds the file to
/// what the list holds.
pub proof fn lemma_placed(sorted: Seq<FileView>, file: FileView)
    requires
        ascending(sorted),
    ensures
        ascending(placed(sorted, file)),
        placed(sorted, file).to_multiset() == sorted.to_multiset().insert(file),
    decreases sorted.len(),
{
    broadcast use vstd::seq_lib::group_to_multiset_ensures;

    if sorted.len() == 0 {
        assert(seq![file] =~= Seq::<FileView>::empty().push(file));
    } else if sorted.last().size <= file.size {
    } else {
        let front = sorted.drop_last();
        assert(ascending(front));
        lemma_placed(front, file);
        let inner = placed(front, file);
        assert(sorted =~= front.push(sorted.last()));
        assert forall|i: int| 0 <= i < inner.len() implies inner[i].size
            <= sorted.last().size by {
            assert(inner.to_multiset().count(inner[i]) > 0);
            if inner[i] != file {
                assert(front.to_multiset().count(inner[i]) > 0);
                let k = choose|k: int| 0 <= k < front.len() && front[k] == inner[i];
                assert(sorted[k] == front[k]);
            }
        }
    }
}

/// Ordering by size gives an ascending list that holds what it was given.
pub proof fn lemma_by_size(files: Seq<FileView>)
    ensures
        ascending(by_size(files)),
        by_size(files).to_multiset() == files.to_multiset(),
    decreases files.len(),
{
    broadcast use vstd::seq_lib::group_to_multiset_ensures;

    if files.len() > 0 {
        lemma_by_size(files.drop_last());
        lemma_placed(by_size(files.drop_last()), files.last());
        assert(files =~= files.drop_last().push(files.last()));
    }
}

/// Orders `files` by size, files of one size in the order in which they
/// came.
pub fn sort_by_size(files: &Vec<File>) -> (sorted: Vec<File>)
    ensures
        files_view(sorted@) == by_size(files_view(files@)),
{
    let mut sorted: Vec<File> = Vec::new();
    let mut i: usize = 0;
    let ghost all = files_view(files@);
    assert(all.take(0) =~= Seq::<FileView>::empty());
    assert(files_view(sorted@) =~= Seq::<FileView>::empty());
    while i < files.len()
        invariant
            i <= files.len(),
            all == files_view(files@),
            sorted@.len() == i,
            files_view(sorted@) == by_size(all.take(i as int)),
        decreases files.len() - i,
    {
        let file = File { path: files[i].path.clone(), size: files[i].size };
        let mut at: usize = sorted.len();
        while at > 0 && sorted[at - 1].size > file.size
            invariant
                at <= sorted@.len(),
                forall|k: int| at <= k < sorted@.len() ==> sorted@[k].size > file.size,
            decreases at,
        {
            at -= 1;
        }
        proof {
            let before = files_view(sorted@);
            assert(all.take(i + 1).drop_last() =~= all.take(i as int));
            assert(all.take(i + 1).last() == file@);
            lemma_placed_is_insert(before, file@, at as int);
            assert(files_view(sorted@.insert(at as int, file)) =~= before.insert(at as int, file@));
        }
        sorted.insert(at, file);
        i += 1;
    }
    assert(all.take(i as int) =~= all);
    sorted
}

/// The escape sequence that resets the terminal's colours, where the table
/// goes to a terminal.
pub open spec fn reset(is_tty: bool) -> Seq<char> {
    if is_tty {
        "\x1b[0m"@
    } else {
        Seq::empty()
    }
}

/// The table's header.
pub open spec fn header(is_tty: bool) -> Seq<char> {
    if is_tty {
        "\x1b[1mFile Path\tSize\x1b[0m\n"@
    } else {
        "File Path\tSize\n"@
    }
}

/// The table's line for `file`.
pub open spec fn line(file: FileView, is_tty: bool) -> Seq<char> {
    reset(is_tty) + file.path + "\t"@ + human_size(file.size) + reset(is_tty) + "\n"@
}

/// The table's lines for `files`, in their order.
pub open spec fn lines(files: Seq<FileView>, is_tty: bool) -> Seq<char>
    decreases files.len(),
{
    if files.len() == 0 {
        Seq::empty()
    } else {
        lines(files.drop_last(), is_tty) + line(files.last(), is_tty)
    }
}

/// The table for `files`: the header, then a line for each file, smallest
/// first.
pub open spec fn table(files: Seq<FileView>, is_tty: bool) -> Seq<char> {
    header(is_tty) + lines(by_size(files), is_tty)
}

/// The table's line for `file`, with `size` as the text for its size.
pub open spec fn line_with(file: FileView, size: Seq<char>, is_tty: bool) -> Seq<char> {
    reset(is_tty) + file.path + "\t"@ + size + reset(is_tty) + "\n"@
}

/// The table's lines for `files`, with `sizes` as the texts for their
/// sizes.
pub open spec fn lines_with(files: Seq<FileView>, sizes: Seq<Seq<char>>, is_tty: bool) -> Seq<
    char,
>
    decreases files.len(),
{
    if files.len() == 0 || sizes.len() != files.len() {
        Seq::empty()
    } else {
        lines_with(files.drop_last(), sizes.drop_last(), is_tty) + line_with(
            files.last(),
            sizes.last(),
            is_tty,
        )
    }
}

/// Lays out files that are in order already: the header, then a line for
/// each file, with `sizes` giving the text for each size. Where there is
/// not one size for each file, the header is all there is.
pub fn lay_out(sorted: &Vec<File>, sizes: &Vec<String>, is_tty: bool) -> (text: String)
    ensures
        text@ == header(is_tty) + lines_with(
            files_view(sorted@),
            Seq::new(sizes@.len(), |i: int| sizes@[i]@),
            is_tty,
        ),
{
    let ghost files = files_view(sorted@);
    let ghost words = Seq::new(sizes@.len(), |i: int| sizes@[i]@);
    let mut text = if is_tty {
        "\x1b[1mFile Path\tSize\x1b[0m\n".to_owned()
    } else {
        "File Path\tSize\n".to_owned()
    };
    if sizes.len() != sorted.len() {
        assert(text@ =~= header(is_tty) + lines_with(files, words, is_tty));
        return text;
    }
    let mut i: usize = 0;
    assert(files.take(0) =~= Seq::<FileView>::empty());
    assert(text@ =~= header(is_tty) + lines_with(files.take(0), words.take(0), is_tty));
    while i < sorted.len()
        invariant
            i <= sorted.len(),
            sizes@.len() == sorted@.len(),
            files == files_view(sorted@),
            words == Seq::new(sizes@.len(), |i: int| sizes@[i]@),
            text@ == header(is_tty) + lines_with(
                files.take(i as int),
                words.take(i as int),
                is_tty,
            ),
        decreases sorted.len() - i,
    {
        let ghost before = text@;
        if is_tty {
            text.append("\x1b[0m");
        }
        text.append(sorted[i].path.as_str());
        text.append("\t");
        text.append(sizes[i].as_str());
        if is_tty {
            text.append("\x1b[0m");
        }
        text.append("\n");
        proof {
            assert(files.take(i + 1).drop_last() =~= files.take(i as int));
            assert(words.take(i + 1).drop_last() =~= words.take(i as int));
            assert(files.take(i + 1).last() == sorted@[i as int]@);
            assert(words.take(i + 1).last() == sizes@[i as int]@);
            assert(text@ =~= before + line_with(sorted@[i as int]@, sizes@[i as int]@, is_tty));
            assert(text@ =~= header(is_tty) + lines_with(
                files.take(i + 1),
                words.take(i + 1),
                is_tty,
            ));
        }
        i += 1;
    }
    assert(files.take(i as int) =~= files);
    assert(words.take(i as int) =~= words);
    text
}

/// Lines with the sizes in words are the lines of the table.
proof fn lemma_lines_with(files: Seq<FileView>, is_tty: bool)
    ensures
        lines_with(files, Seq::new(files.len(), |i: int| human_size(files[i].size)), is_tty)
            == lines(files, is_tty),
    decreases files.len(),
{
    if files.len() > 0 {
        let sizes = Seq::new(files.len(), |i: int| human_size(files[i].size));
        let front = files.drop_last();
        assert(sizes.drop_last() =~= Seq::new(front.len(), |i: int| human_size(front[i].size)));
        lemma_lines_with(front, is_tty);
    }
}

/// The table in which `files` are shown: a header, then one line per file,
/// smallest file first, each with the file's path, a tab, and its size in
/// words. Where the table goes to a terminal, the header is bold and every
/// line resets the colours at both ends.
pub fn pretty_print(files: &Vec<File>, is_tty: bool) -> (text: String)
    ensures
        text@ == table(files_view(files@), is_tty),
{
    let sorted = sort_by_size(files);
    let mut sizes: Vec<String> = Vec::new();
    let mut i: usize = 0;
    let ghost ordered = files_view(sorted@);
    while i < sorted.len()
        invariant
            i <= sorted.len(),
            ordered == files_view(sorted@),
            sizes@.len() == i,
            forall|k: int| 0 <= k < i ==> (#[trigger] sizes@[k])@ == human_size(ordered[k].size),
        decreases sorted.len() - i,
    {
        sizes.push(size_text(sorted[i].size));
        i += 1;
    }
    proof {
        lemma_lines_with(ordered, is_tty);
        assert(Seq::new(sizes@.len(), |i: int| sizes@[i]@) =~= Seq::new(
            ordered.len(),
            |i: int| human_size(ordered[i].size),
        ));
    }
    lay_out(&sorted, &sizes, is_tty)
}

} // verus!
