//! Units as text: printed one after the other, or written to files.
use crate::formats::{self, IniFiles};
use crate::outside;
use crate::paths::{self, join_path};
use crate::quadlet::{self, QUADLET_DELIMITER};
use crate::text;
use vstd::prelude::*;
#[allow(unused_imports)]
use crate::formats::{IniView, Listing};

verus! {

/// The text of each file, in order.
pub open spec fn contents_of(files: IniFiles) -> Seq<Seq<char>> {
    Seq::new(files.0.names().len(), |i: int| formats::ini_text(files.0.item(i).ordered()))
}

/// A file as it is printed: its name in a comment, and its content.
pub open spec fn entry_text(name: Seq<char>, content: Seq<char>) -> Seq<char> {
    "# "@ + name + "\n"@ + content + "\n"@
}

/// Files as they are printed, one by one.
pub open spec fn entries_of(names: Seq<Seq<char>>, contents: Seq<Seq<char>>) -> Seq<Seq<char>> {
    Seq::new(names.len(), |i: int| entry_text(names[i], contents[i]))
}

/// Files as they are printed, with the delimiter between neighbours.
pub open spec fn printed(names: Seq<Seq<char>>, contents: Seq<Seq<char>>) -> Seq<char> {
    text::joined(entries_of(names, contents), QUADLET_DELIMITER@)
}

/// The text that is printed for files.
pub fn print_files(files: &IniFiles) -> (r: String)
    ensures
        r@ == printed(files.0.names(), contents_of(*files)),
{
    let total: usize = files.0.len();
    let ghost all = entries_of(files.0.names(), contents_of(*files));
    let mut r = String::new();
    let mut i: usize = 0;
    assert(r@ =~= text::joined(all.take(0), QUADLET_DELIMITER@));
    while i < total
        invariant
            i <= total == files.0.names().len(),
            all == entries_of(files.0.names(), contents_of(*files)),
            r@ == text::joined(all.take(i as int), QUADLET_DELIMITER@),
        decreases total - i,
    {
        let content = files.0.value_at(i).to_text();
        let entry = "# ".to_owned().concat(files.0.name_at(i).as_str()).concat("\n").concat(
            content.as_str(),
        ).concat("\n");
        proof {
            assert(all.take(i + 1).drop_last() =~= all.take(i as int));
            assert(all.take(i + 1).last() == entry@);
            assert(r@ + QUADLET_DELIMITER@ + entry@ =~= r@ + (QUADLET_DELIMITER@ + entry@));
        }
        if i > 0 {
            r = r.concat(QUADLET_DELIMITER).concat(entry.as_str());
        } else {
            r = entry;
        }
        i += 1;
    }
    assert(all.take(all.len() as int) =~= all);
    r
}

/// The files to write in a directory: the path and the content of each.
pub open spec fn written(
    names: Seq<Seq<char>>,
    contents: Seq<Seq<char>>,
    dir: Seq<char>,
) -> Seq<(Seq<char>, Seq<char>)> {
    Seq::new(names.len(), |i: int| (paths::path_in(dir, names[i]), contents[i]))
}

/// The files to write in a directory: the path and the content of each.
pub fn write_files(files: &IniFiles, output_dir: &str) -> (r: Vec<(String, String)>)
    ensures
        quadlet::named_views(r@) == written(
            files.0.names(),
            contents_of(*files),
            output_dir@,
        ),
{
    let total: usize = files.0.len();
    let ghost names = files.0.names();
    let ghost contents = contents_of(*files);
    let mut r: Vec<(String, String)> = Vec::new();
    let mut i: usize = 0;
    while i < total
        invariant
            i <= total == files.0.names().len(),
            names == files.0.names(),
            contents == contents_of(*files),
            r@.len() == i,
            forall|j: int|
                0 <= j < i ==> (#[trigger] r@[j]).0@ == paths::path_in(output_dir@, names[j])
                    && r@[j].1@ == contents[j],
        decreases total - i,
    {
        let path = join_path(output_dir, files.0.name_at(i).as_str());
        let content = files.0.value_at(i).to_text();
        r.push((path, content));
        i += 1;
    }
    assert(quadlet::named_views(r@) =~= written(names, contents, output_dir@));
    r
}

/// An entry that the delimiter behind it ends, and nothing before.
pub open spec fn is_framed(entry: Seq<char>) -> bool {
    text::find(entry + QUADLET_DELIMITER@, QUADLET_DELIMITER@) == Some(entry.len() as int)
}

/// Entries can be told apart: the delimiter ends each of them but the last, which holds none.
pub open spec fn are_separable(entries: Seq<Seq<char>>) -> bool {
    &&& forall|i: int| 0 <= i < entries.len() - 1 ==> is_framed(#[trigger] entries[i])
    &&& entries.len() > 0 ==> !text::holds(entries.last(), QUADLET_DELIMITER@)
}

/// Separable entries are told apart again.
proof fn lemma_split_back(entries: Seq<Seq<char>>)
    requires
        entries.len() > 0,
        are_separable(entries),
    ensures
        text::pieces(text::joined(entries, QUADLET_DELIMITER@), QUADLET_DELIMITER@) == entries,
    decreases entries.len(),
{
    reveal_strlit("\n---\n\n");
    let pat = QUADLET_DELIMITER@;
    if entries.len() == 1 {
        assert(text::pieces(entries[0], pat) =~= entries);
    } else {
        let first = entries[0];
        let rest = entries.skip(1);
        assert forall|i: int| 0 <= i < rest.len() - 1 implies is_framed(#[trigger] rest[i]) by {
            assert(rest[i] == entries[i + 1]);
        }
        assert(rest.last() == entries.last());
        lemma_split_back(rest);
        assert(is_framed(entries[0]));
        lemma_joined_head(entries, pat);
        text::lemma_pieces_head(first, pat, text::joined(rest, pat));
        assert(seq![first] + rest =~= entries);
    }
}

/// Joining can start with the first part.
proof fn lemma_joined_head(parts: Seq<Seq<char>>, sep: Seq<char>)
    requires
        parts.len() > 1,
    ensures
        text::joined(parts, sep) == parts[0] + sep + text::joined(parts.skip(1), sep),
    decreases parts.len(),
{
    let rest = parts.skip(1);
    if parts.len() == 2 {
        assert(parts.drop_last().len() == 1);
        assert(text::joined(parts.drop_last(), sep) == parts[0]);
        assert(text::joined(rest, sep) == parts[1]);
    } else {
        lemma_joined_head(parts.drop_last(), sep);
        assert(parts.drop_last().skip(1) =~= rest.drop_last());
        assert(rest.last() == parts.last());
        assert(text::joined(parts, sep) =~= parts[0] + sep + text::joined(rest, sep));
    }
}

/// A framed entry holds no delimiter.
proof fn lemma_no_delimiter(entry: Seq<char>)
    requires
        is_framed(entry),
    ensures
        text::find(entry, QUADLET_DELIMITER@) is None,
{
    reveal_strlit("\n---\n\n");
    let pat = QUADLET_DELIMITER@;
    text::lemma_find_bounds(entry, pat);
    if let Some(i) = text::find(entry, pat) {
        text::lemma_find_first(entry + pat, pat, i);
        assert(entry.subrange(i, i + pat.len()) =~= pat);
        assert((entry + pat).skip(i).take(pat.len() as int) =~= pat);
        assert(text::begins((entry + pat).skip(i), pat));
    }
}

/// The name of a file: one line, without space around it.
pub open spec fn is_file_name(name: Seq<char>) -> bool {
    !name.contains('\n') && text::trimmed(name) == name
}

/// What is printed can be taken apart again: each file is found under its name, with its content
/// and the newline behind it. Of no files nothing is found.
pub proof fn law_printed_files_are_found(names: Seq<Seq<char>>, contents: Seq<Seq<char>>)
    requires
        names.len() == contents.len(),
        forall|i: int| 0 <= i < names.len() ==> is_file_name(#[trigger] names[i]),
        are_separable(entries_of(names, contents)),
    ensures
        quadlet::raw_blocks(printed(names, contents)) == Seq::new(
            names.len(),
            |i: int| (names[i], contents[i] + "\n"@),
        ),
{
    let entries = entries_of(names, contents);
    let goal = Seq::new(names.len(), |i: int| (names[i], contents[i] + "\n"@));
    if names.len() == 0 {
        reveal_strlit("\n---\n\n");
        reveal_strlit("\n");
        let nothing = Seq::<char>::empty();
        assert(printed(names, contents) =~= nothing);
        text::lemma_find_bounds(nothing, QUADLET_DELIMITER@);
        text::lemma_find_bounds(nothing, "\n"@);
        let blocks = text::pieces(nothing, QUADLET_DELIMITER@);
        assert(blocks =~= seq![nothing]);
        assert(blocks.drop_last() =~= Seq::empty());
        assert(quadlet::block_of(nothing) is None);
        assert(quadlet::named_blocks(blocks.drop_last()) =~= Seq::empty());
        assert(quadlet::named_blocks(blocks) =~= goal);
    } else {
        lemma_split_back(entries);
        lemma_blocks_back(names, contents);
    }
}

/// What is printed is read back as the same units, where each content, with the newline behind it,
/// is read as the unit that it was written for.
pub proof fn law_printed_units_are_read_back(
    names: Seq<Seq<char>>,
    contents: Seq<Seq<char>>,
    units: Seq<IniView>,
)
    requires
        names.len() == contents.len() == units.len(),
        names.no_duplicates(),
        forall|i: int| 0 <= i < names.len() ==> is_file_name(#[trigger] names[i]),
        are_separable(entries_of(names, contents)),
        forall|i: int|
            0 <= i < names.len() ==> outside::ini_content(#[trigger] contents[i] + "\n"@) == Some(
                units[i],
            ),
    ensures
        quadlet::units_of(quadlet::raw_blocks(printed(names, contents))) == Some(
            Map::new(
                |name: Seq<char>| names.contains(name),
                |name: Seq<char>| units[names.index_of(name)],
            ),
        ),
{
    law_printed_files_are_found(names, contents);
    lemma_units_back(names, contents, units);
}

proof fn lemma_units_back(
    names: Seq<Seq<char>>,
    contents: Seq<Seq<char>>,
    units: Seq<IniView>,
)
    requires
        names.len() == contents.len() == units.len(),
        names.no_duplicates(),
        forall|i: int|
            0 <= i < names.len() ==> outside::ini_content(#[trigger] contents[i] + "\n"@) == Some(
                units[i],
            ),
    ensures
        quadlet::units_of(Seq::new(names.len(), |i: int| (names[i], contents[i] + "\n"@))) == Some(
            Map::new(
                |name: Seq<char>| names.contains(name),
                |name: Seq<char>| units[names.index_of(name)],
            ),
        ),
    decreases names.len(),
{
    let named = Seq::new(names.len(), |i: int| (names[i], contents[i] + "\n"@));
    let goal = Map::new(
        |name: Seq<char>| names.contains(name),
        |name: Seq<char>| units[names.index_of(name)],
    );
    if names.len() == 0 {
        assert(goal =~= Map::empty());
    } else {
        let init = names.drop_last();
        let init_contents = contents.drop_last();
        let init_units = units.drop_last();
        assert forall|i: int| 0 <= i < init.len() implies outside::ini_content(
            #[trigger] init_contents[i] + "\n"@,
        ) == Some(init_units[i]) by {
            assert(init_contents[i] == contents[i]);
        }
        lemma_units_back(init, init_contents, init_units);
        let before = Map::new(
            |name: Seq<char>| init.contains(name),
            |name: Seq<char>| init_units[init.index_of(name)],
        );
        let last = names.len() - 1;
        assert(named.drop_last() =~= Seq::new(
            init.len(),
            |i: int| (init[i], init_contents[i] + "\n"@),
        ));
        assert(outside::ini_content(contents[last] + "\n"@) == Some(units[last]));
        assert(names.index_of(names[last]) == last) by {
            assert(names.contains(names[last]));
        }
        assert forall|name: Seq<char>| #[trigger] goal.contains_key(name) == before.insert(
            names[last],
            units[last],
        ).contains_key(name) && (goal.contains_key(name) ==> goal[name] == before.insert(
            names[last],
            units[last],
        )[name]) by {
            if init.contains(name) {
                let i = init.index_of(name);
                assert(names[i] == name);
                assert(names.index_of(name) == i);
            }
            if names.contains(name) && name != names[last] {
                let i = names.index_of(name);
                assert(init[i] == name);
            }
            assert(names.contains(names[last]));
        }
        assert(goal =~= before.insert(names[last], units[last]));
    }
}

/// Every newline in a text follows a carriage return.
pub open spec fn has_full_lines(s: Seq<char>) -> bool {
    forall|i: int| 0 <= i < s.len() && #[trigger] s[i] == '\n' ==> i > 0 && s[i - 1] == '\r'
}

/// Nothing in a document holds a newline.
pub open spec fn is_one_lined(sections: Seq<(Seq<char>, Listing)>) -> bool {
    forall|i: int|
        0 <= i < sections.len() ==> !(#[trigger] sections[i]).0.contains('\n') && forall|j: int|
            0 <= j < sections[i].1.len() ==> !(#[trigger] sections[i].1[j]).0.contains('\n')
                && !sections[i].1[j].1.contains('\n')
}

/// Two texts of full lines make one.
proof fn lemma_full_lines_add(a: Seq<char>, b: Seq<char>)
    requires
        has_full_lines(a),
        has_full_lines(b),
    ensures
        has_full_lines(a + b),
{
    let s = a + b;
    assert forall|i: int| 0 <= i < s.len() && #[trigger] s[i] == '\n' implies i > 0 && s[i - 1]
        == '\r' by {
        if i < a.len() {
            assert(a[i] == '\n');
        } else {
            assert(b[i - a.len()] == '\n');
        }
    }
}

/// A text without newlines has full lines.
proof fn lemma_full_lines_free(s: Seq<char>)
    requires
        !s.contains('\n'),
    ensures
        has_full_lines(s),
{
    assert forall|i: int| 0 <= i < s.len() implies #[trigger] s[i] != '\n' by {
        assert(s.contains(s[i]));
    }
}

proof fn lemma_lines_full(entries: Listing)
    requires
        forall|j: int|
            0 <= j < entries.len() ==> !(#[trigger] entries[j]).0.contains('\n')
                && !entries[j].1.contains('\n'),
    ensures
        has_full_lines(formats::lines_text(entries)),
    decreases entries.len(),
{
    if entries.len() > 0 {
        let init = entries.drop_last();
        assert forall|j: int| 0 <= j < init.len() implies !(#[trigger] init[j]).0.contains('\n')
            && !init[j].1.contains('\n') by {
            assert(init[j] == entries[j]);
        }
        lemma_lines_full(init);
        let (key, value) = entries[entries.len() - 1];
        assert(!entries[entries.len() - 1].0.contains('\n'));
        reveal_strlit("=");
        reveal_strlit("\r\n");
        lemma_full_lines_free(key);
        lemma_full_lines_free(value);
        lemma_full_lines_add(formats::lines_text(init), key);
        lemma_full_lines_add(formats::lines_text(init) + key, "="@);
        lemma_full_lines_add(formats::lines_text(init) + key + "="@, value);
        lemma_full_lines_add(formats::lines_text(init) + key + "="@ + value, "\r\n"@);
    }
}

proof fn lemma_ini_full(sections: Seq<(Seq<char>, Listing)>)
    requires
        is_one_lined(sections),
    ensures
        has_full_lines(formats::ini_text(sections)),
    decreases sections.len(),
{
    if sections.len() > 0 {
        let init = sections.drop_last();
        assert forall|i: int| 0 <= i < init.len() implies !(#[trigger] init[i]).0.contains('\n')
            && forall|j: int|
            0 <= j < init[i].1.len() ==> !(#[trigger] init[i].1[j]).0.contains('\n')
                && !init[i].1[j].1.contains('\n') by {
            assert(init[i] == sections[i]);
        }
        lemma_ini_full(init);
        let (name, entries) = sections[sections.len() - 1];
        assert(!sections[sections.len() - 1].0.contains('\n'));
        reveal_strlit("[");
        reveal_strlit("]\r\n");
        lemma_full_lines_free(name);
        lemma_lines_full(entries);
        let start = formats::ini_text(init);
        lemma_full_lines_add(start, "["@);
        lemma_full_lines_add(start + "["@, name);
        lemma_full_lines_add(start + "["@ + name, "]\r\n"@);
        lemma_full_lines_add(start + "["@ + name + "]\r\n"@, formats::lines_text(entries));
    }
}

/// No delimiter starts inside an entry whose content has full lines.
proof fn lemma_no_start(name: Seq<char>, content: Seq<char>, i: int)
    requires
        !name.contains('\n'),
        has_full_lines(content),
        content.len() > 0 ==> content.last() == '\n',
        0 <= i < entry_text(name, content).len(),
    ensures
        !text::begins((entry_text(name, content) + QUADLET_DELIMITER@).skip(i), QUADLET_DELIMITER@),
{
    reveal_strlit("\n---\n\n");
    reveal_strlit("# ");
    reveal_strlit("\n");
    let pat = QUADLET_DELIMITER@;
    let entry = entry_text(name, content);
    let whole = entry + pat;
    let m = 2 + name.len();
    let n = entry.len();
    assert(n == m + 2 + content.len());
    if text::begins(whole.skip(i), pat) {
        let found = whole.skip(i).take(6);
        assert(found[0] == '\n' && found[3] == '-' && found[4] == '\n');
        let k = i + 4;
        assert(whole[i] == '\n' && whole[k - 1] == '-' && whole[k] == '\n');
        if i < 2 {
            assert(whole[i] == "# "@[i]);
        } else if i < m {
            assert(whole[i] == name[i - 2]);
            assert(name.contains(name[i - 2]));
        } else if k < n - 1 {
            let c = k - m - 1;
            assert(whole[k] == content[c]);
            assert(whole[k - 1] == content[c - 1]);
        } else if k == n - 1 {
            assert(whole[k - 1] == content[content.len() - 1]);
        } else if k == n {
            assert(whole[k - 1] == entry[n - 1]);
        } else {
            assert(whole[k] == pat[k - n]);
        }
    }
}

/// A printed document in which nothing holds a newline cannot be mistaken for two: the delimiter
/// behind it is the first one.
pub proof fn law_one_lined_documents_are_framed(
    name: Seq<char>,
    sections: Seq<(Seq<char>, Listing)>,
)
    requires
        !name.contains('\n'),
        is_one_lined(sections),
    ensures
        is_framed(entry_text(name, formats::ini_text(sections))),
        !text::holds(entry_text(name, formats::ini_text(sections)), QUADLET_DELIMITER@),
{
    lemma_ini_full(sections);
    lemma_content_end(sections);
    let content = formats::ini_text(sections);
    let entry = entry_text(name, content);
    let pat = QUADLET_DELIMITER@;
    let whole = entry + pat;
    let n = entry.len() as int;
    assert(whole.skip(n) =~= pat);
    assert(pat.take(pat.len() as int) =~= pat);
    assert forall|i: int| 0 <= i < n implies !text::begins(#[trigger] whole.skip(i), pat) by {
        lemma_no_start(name, content, i);
    }
    text::lemma_find_is(whole, pat, n);
    lemma_no_delimiter(entry);
}

/// A document that is not empty ends in a newline.
proof fn lemma_content_end(sections: Seq<(Seq<char>, Listing)>)
    ensures
        formats::ini_text(sections).len() > 0 ==> formats::ini_text(sections).last() == '\n',
{
    reveal_strlit("\r\n");
    reveal_strlit("]\r\n");
    if sections.len() > 0 {
        let entries = sections.last().1;
        if entries.len() > 0 {
            assert(formats::lines_text(entries).last() == '\n');
        }
    }
}

/// Each entry gives its name and its content back.
proof fn lemma_blocks_back(names: Seq<Seq<char>>, contents: Seq<Seq<char>>)
    requires
        names.len() == contents.len(),
        forall|i: int| 0 <= i < names.len() ==> is_file_name(#[trigger] names[i]),
    ensures
        quadlet::named_blocks(entries_of(names, contents)) == Seq::new(
            names.len(),
            |i: int| (names[i], contents[i] + "\n"@),
        ),
    decreases names.len(),
{
    let goal = Seq::new(names.len(), |i: int| (names[i], contents[i] + "\n"@));
    if names.len() == 0 {
        assert(quadlet::named_blocks(entries_of(names, contents)) =~= goal);
    } else {
        let init = names.drop_last();
        let init_contents = contents.drop_last();
        assert forall|i: int| 0 <= i < init.len() implies is_file_name(#[trigger] init[i]) by {
            assert(init[i] == names[i]);
        }
        lemma_blocks_back(init, init_contents);
        assert(entries_of(names, contents).drop_last() =~= entries_of(init, init_contents));
        let last = names.len() - 1;
        assert(is_file_name(names[last]));
        lemma_entry_block(names[last], contents[last]);
        assert(goal =~= Seq::new(init.len(), |i: int| (init[i], init_contents[i] + "\n"@)).push(
            (names[last], contents[last] + "\n"@),
        ));
    }
}

proof fn lemma_entry_block(name: Seq<char>, content: Seq<char>)
    requires
        is_file_name(name),
    ensures
        quadlet::block_of(entry_text(name, content)) == Some((name, content + "\n"@)),
{
    reveal_strlit("\n");
    reveal_strlit("# ");
    let entry = entry_text(name, content);
    let first = "# "@ + name;
    let n = first.len() as int;
    assert(entry.skip(n).take(1) =~= "\n"@);
    assert(text::begins(entry.skip(n), "\n"@));
    assert forall|j: int| 0 <= j < n implies !text::begins(#[trigger] entry.skip(j), "\n"@) by {
        assert(entry.skip(j)[0] == first[j]);
        if j >= 2 {
            assert(first[j] == name[j - 2]);
            assert(name.contains(name[j - 2]));
        }
        if text::begins(entry.skip(j), "\n"@) {
            assert(entry.skip(j).take(1)[0] == '\n');
        }
    }
    text::lemma_find_is(entry, "\n"@, n);
    assert(entry.take(n) =~= first);
    assert(entry.skip(n + 1) =~= content + "\n"@);
    assert(first.take(2) =~= "# "@);
    assert(text::begins(first, "# "@));
    assert(first.skip(2) =~= name);
}

/// A file is printed as its name in a comment with its content below, and further files follow
/// behind a line of three dashes between blank ones.
pub proof fn law_files_are_printed_in_order(
    names: Seq<Seq<char>>,
    contents: Seq<Seq<char>>,
    name: Seq<char>,
    content: Seq<char>,
)
    requires
        names.len() == contents.len(),
    ensures
        printed(Seq::empty(), Seq::empty()).len() == 0,
        printed(seq![name], seq![content]) == "# "@ + name + "\n"@ + content + "\n"@,
        names.len() > 0 ==> printed(names.push(name), contents.push(content)) == printed(
            names,
            contents,
        ) + "\n---\n\n"@ + ("# "@ + name + "\n"@ + content + "\n"@),
{
    let none = Seq::<Seq<char>>::empty();
    assert(entries_of(none, none) =~= none);
    let one = entries_of(seq![name], seq![content]);
    assert(one =~= seq![entry_text(name, content)]);
    let all = entries_of(names.push(name), contents.push(content));
    assert(all.drop_last() =~= entries_of(names, contents));
    assert(all.last() == entry_text(name, content));
    assert(QUADLET_DELIMITER@ == "\n---\n\n"@);
}

/// Each file is written under its name in the directory, with its own content.
pub proof fn law_files_are_written_in_directory(
    names: Seq<Seq<char>>,
    contents: Seq<Seq<char>>,
    dir: Seq<char>,
    i: int,
)
    requires
        names.len() == contents.len(),
        0 <= i < names.len(),
        dir.len() > 0,
        dir[dir.len() - 1] != '/',
        names[i].len() > 0,
        names[i] != "."@,
        names[i] != ".."@,
        !names[i].contains('/'),
    ensures
        written(names, contents, dir).len() == names.len(),
        written(names, contents, dir)[i] == (dir + "/"@ + names[i], contents[i]),
        paths::name_of(written(names, contents, dir)[i].0) == Some(names[i]),
{
    assert(names[i].contains(names[i][0]));
    paths::law_path_is_put_behind_directory(dir, names[i]);
    paths::law_name_stands_last(dir, names[i]);
}

/// Every file is written where its name leads from the directory, with its own content.
pub proof fn law_names_lead_from_directory(
    names: Seq<Seq<char>>,
    contents: Seq<Seq<char>>,
    dir: Seq<char>,
    i: int,
)
    requires
        0 <= i < names.len(),
    ensures
        written(names, contents, dir).len() == names.len(),
        written(names, contents, dir)[i].0 == paths::path_in(dir, names[i]),
        written(names, contents, dir)[i].1 == contents[i],
{
}

/// The content of a file is the text of its sections in their order, each with its entries in
/// theirs.
pub proof fn law_contents_keep_order(files: IniFiles, i: int, j: int, k: int)
    requires
        0 <= i < files.0.names().len(),
        0 <= j < files.0.item(i).0.names().len(),
        0 <= k < files.0.item(i).0.item(j).names().len(),
    ensures
        contents_of(files).len() == files.0.names().len(),
        contents_of(files)[i] == formats::ini_text(files.0.item(i).ordered()),
        files.0.item(i).ordered().len() == files.0.item(i).0.names().len(),
        files.0.item(i).ordered()[j].0 == files.0.item(i).0.names()[j],
        files.0.item(i).ordered()[j].1.len() == files.0.item(i).0.item(j).names().len(),
        files.0.item(i).ordered()[j].1[k].0 == files.0.item(i).0.item(j).names()[k],
        files.0.item(i).ordered()[j].1[k].1 == files.0.item(i).0.item(
            j,
        )@[files.0.item(i).0.item(j).names()[k]],
{
}

} // verus!
