//! What the tools promise: what a file holds after a change, and what is shown of files and commands.
use crate::json::{member, text_in, JsonView, NumberView};
use crate::order::{sorted_texts, sorted_texts_are_sorted, text_leq};
use crate::paths::{holds_secret, PartView};
use crate::patterns::{regex_matches, secret_in};
use crate::text::{
    decimal, found_from, found_from_is_first, has_text, joined, lines, occurs_at, repeated,
    signed_decimal, what_is_at_one_place_is_counted_once, what_is_counted_once_is_at_one_place,
    what_is_nowhere_is_not_counted,
};
use crate::tool::{FileChange, ToolResult};
use crate::tools::{
    answers_for, capped, change_planned, changes_diff, command_request, command_text, cut,
    edits_applied, entry_label, file_diff, glob_answer, grep_source, hits, labels, listing, mutated,
    number_arg, numbered, page, page_end, read_answer, read_request, replaced_once,
    replacement_keeps_the_rest, takes_back, text_arg, unified_diff_text, without_secrets, DirEntry,
    EntryKind, MutationKind, Undo,
};
use vstd::prelude::*;
use vstd::utf8::{decode_utf8, valid_utf8};

verus! {

/// What a file holds after `write_file` is the content that was given, whatever it held before; a
/// content that is missing, empty or no text is refused.
pub proof fn writing_forgets_what_was_there(
    members: Map<Seq<char>, JsonView>,
    content: Seq<char>,
    before: Seq<char>,
    other: Seq<char>,
)
    ensures
        members.contains_key("content"@) && members["content"@] == JsonView::Text(content)
            && content.len() > 0 ==> mutated(
            MutationKind::Write,
            JsonView::Object(members),
            before,
        ) == Ok::<Seq<char>, Seq<char>>(content),
        !(members.contains_key("content"@) && members["content"@] is Text
            && members["content"@]->Text_0.len() > 0) ==> mutated(
            MutationKind::Write,
            JsonView::Object(members),
            before,
        ) is Err,
        mutated(MutationKind::Write, JsonView::Object(members), before) == mutated(
            MutationKind::Write,
            JsonView::Object(members),
            other,
        ),
{
}

/// Whether a text is another with what stands at one place of it put in the place of what stood
/// there.
pub open spec fn differs_at(
    before: Seq<char>,
    at: int,
    old: Seq<char>,
    new: Seq<char>,
    after: Seq<char>,
) -> bool {
    &&& 0 <= at <= before.len() - old.len()
    &&& before.subrange(at, at + old.len()) == old
    &&& after == before.take(at) + new + before.skip(at + old.len())
}

/// A text is replaced where it stands at one place of another alone, and there; where it stands
/// nowhere, or where it is nothing, the replacement is refused. Where it was replaced, it stood
/// nowhere else but for places that overlap.
pub proof fn the_one_occurrence_is_replaced(
    before: Seq<char>,
    old: Seq<char>,
    new: Seq<char>,
    at: int,
    other: int,
)
    ensures
        old.len() > 0 && occurs_at(before, old, at) && (forall|j: int| #[trigger]
            occurs_at(before, old, j) ==> j == at) ==> replaced_once(before, old, new) is Ok
            && differs_at(before, at, old, new, replaced_once(before, old, new)->Ok_0),
        old.len() == 0 || !has_text(before, old) ==> replaced_once(before, old, new) is Err,
        replaced_once(before, old, new) is Ok && occurs_at(before, old, at) && occurs_at(
            before,
            old,
            other,
        ) ==> at < other + old.len() && other < at + old.len(),
{
    if old.len() > 0 {
        what_is_nowhere_is_not_counted(before, old);
        found_from_is_first(before, old, 0);
        if occurs_at(before, old, at) && (forall|j: int| #[trigger]
            occurs_at(before, old, j) ==> j == at) {
            what_is_at_one_place_is_counted_once(before, old, at);
            assert(found_from(before, old, 0) == Some(at));
        }
        if replaced_once(before, old, new) is Ok {
            what_is_counted_once_is_at_one_place(before, old, at);
            what_is_counted_once_is_at_one_place(before, old, other);
        }
    }
}

/// What a file holds after `edit_file` is what it held with the old text replaced by the new one,
/// and the rest as it was.
pub proof fn editing_replaces_the_old_text(
    members: Map<Seq<char>, JsonView>,
    before: Seq<char>,
    old: Seq<char>,
    new: Seq<char>,
)
    requires
        members.contains_key("old_string"@) && members["old_string"@] == JsonView::Text(old),
        members.contains_key("new_string"@) && members["new_string"@] == JsonView::Text(new),
        old.len() > 0,
        new.len() > 0,
    ensures
        ({
            let r = mutated(MutationKind::Edit, JsonView::Object(members), before);
            &&& r matches Ok(after) ==> exists|at: int| #[trigger]
                differs_at(before, at, old, new, after)
            &&& !has_text(before, old) ==> r is Err
            &&& forall|at: int|
                #[trigger] occurs_at(before, old, at) && (forall|j: int| #[trigger]
                    occurs_at(before, old, j) ==> j == at) ==> r is Ok
        }),
{
    let r = mutated(MutationKind::Edit, JsonView::Object(members), before);
    assert(r == replaced_once(before, old, new));
    the_one_occurrence_is_replaced(before, old, new, 0, 0);
    if r is Ok {
        replacement_keeps_the_rest(before, old, new);
        let at = choose|i: int|
            {
                &&& 0 <= i <= before.len() - old.len()
                &&& #[trigger] before.subrange(i, i + old.len()) == old
                &&& r->Ok_0 == before.take(i) + new + before.skip(i + old.len())
            };
        assert(differs_at(before, at, old, new, r->Ok_0));
    }
    assert forall|at: int|
        #[trigger] occurs_at(before, old, at) && (forall|j: int| #[trigger]
            occurs_at(before, old, j) ==> j == at) implies r is Ok by {
        the_one_occurrence_is_replaced(before, old, new, at, at);
    }
}

/// Whether a text is another with the old text of an edit replaced by its new one at one place.
pub open spec fn edited(edit: JsonView, before: Seq<char>, after: Seq<char>) -> bool {
    let old = text_in(member(edit, "old_string"@));
    let new = text_in(member(edit, "new_string"@));
    old is Some && new is Some && exists|at: int| #[trigger]
        differs_at(before, at, old->0, new->0, after)
}

/// Whether texts are the stages of a file that edits change one after the other.
pub open spec fn stages_of(edits: Seq<JsonView>, stages: Seq<Seq<char>>) -> bool {
    &&& stages.len() == edits.len() + 1
    &&& forall|i: int|
        0 <= i < edits.len() ==> edited(#[trigger] edits[i], stages[i], stages[i + 1])
}

proof fn edits_have_stages(value: Seq<char>, edits: Seq<JsonView>, n: int) -> (stages: Seq<Seq<char>>)
    requires
        0 <= n <= edits.len(),
        edits_applied(value, edits, n) is Ok,
    ensures
        stages_of(edits.take(n), stages),
        stages[0] == value,
        stages.last() == edits_applied(value, edits, n)->Ok_0,
    decreases n,
{
    if n == 0 {
        seq![value]
    } else {
        let before = edits_have_stages(value, edits, n - 1);
        let after = edits_applied(value, edits, n)->Ok_0;
        let stages = before.push(after);
        let edit = edits[n - 1];
        let old = text_arg(edit, "old_string"@)->Ok_0;
        let new = text_arg(edit, "new_string"@)->Ok_0;
        replacement_keeps_the_rest(before.last(), old, new);
        let at = choose|i: int|
            {
                &&& 0 <= i <= before.last().len() - old.len()
                &&& #[trigger] before.last().subrange(i, i + old.len()) == old
                &&& after == before.last().take(i) + new + before.last().skip(i + old.len())
            };
        assert(differs_at(before.last(), at, old, new, after));
        let taken = edits.take(n);
        assert forall|i: int| 0 <= i < n implies edited(
            #[trigger] taken[i],
            stages[i],
            stages[i + 1],
        ) by {
            if i < n - 1 {
                assert(edits.take(n - 1)[i] == taken[i]);
                assert(stages[i] == before[i] && stages[i + 1] == before[i + 1]);
            } else {
                assert(stages[i] == before.last());
            }
        }
        stages
    }
}

/// What a file holds after `multi_edit` is what comes of all the edits one after the other, each of
/// what the ones before it left; where one cannot be made, none is.
pub proof fn edits_are_made_one_after_the_other(
    members: Map<Seq<char>, JsonView>,
    edits: Seq<JsonView>,
    before: Seq<char>,
)
    requires
        members.contains_key("edits"@) && members["edits"@] == JsonView::Array(edits),
    ensures
        ({
            let r = mutated(MutationKind::MultiEdit, JsonView::Object(members), before);
            &&& r is Ok ==> 1 <= edits.len() <= 100
            &&& r matches Ok(after) ==> exists|stages: Seq<Seq<char>>| #[trigger]
                stages_of(edits, stages) && stages[0] == before && stages.last() == after
            &&& !(1 <= edits.len() <= 100) ==> r is Err
        }),
{
    let r = mutated(MutationKind::MultiEdit, JsonView::Object(members), before);
    if r is Ok {
        let stages = edits_have_stages(before, edits, edits.len() as int);
        assert(edits.take(edits.len() as int) =~= edits);
        assert(stages_of(edits, stages));
    }
}

proof fn edits_go_on(value: Seq<char>, a: Seq<JsonView>, b: Seq<JsonView>, n: int)
    requires
        0 <= n <= b.len(),
    ensures
        ({
            let first = edits_applied(value, a, a.len() as int);
            let both = edits_applied(value, a + b, a.len() + n);
            &&& first is Err ==> both is Err
            &&& first matches Ok(mid) ==> both is Ok == edits_applied(mid, b, n) is Ok && (both is Ok
                ==> both == edits_applied(mid, b, n))
        }),
    decreases n,
{
    if n == 0 {
        edits_do_not_look_ahead(value, a, a + b, a.len() as int);
    } else {
        edits_go_on(value, a, b, n - 1);
        assert((a + b)[a.len() + n - 1] == b[n - 1]);
    }
}

proof fn edits_do_not_look_ahead(value: Seq<char>, a: Seq<JsonView>, b: Seq<JsonView>, n: int)
    requires
        0 <= n <= a.len(),
        n <= b.len(),
        forall|i: int| 0 <= i < n ==> a[i] == b[i],
    ensures
        edits_applied(value, a, n) == edits_applied(value, b, n),
    decreases n,
{
    if n > 0 {
        edits_do_not_look_ahead(value, a, b, n - 1);
    }
}

/// Making some edits and then others is the same as making them all at once, and making one is the
/// same as `edit_file`.
pub proof fn edits_can_be_made_in_two_calls(
    first: Map<Seq<char>, JsonView>,
    second: Map<Seq<char>, JsonView>,
    both: Map<Seq<char>, JsonView>,
    a: Seq<JsonView>,
    b: Seq<JsonView>,
    before: Seq<char>,
)
    requires
        first.contains_key("edits"@) && first["edits"@] == JsonView::Array(a),
        second.contains_key("edits"@) && second["edits"@] == JsonView::Array(b),
        both.contains_key("edits"@) && both["edits"@] == JsonView::Array(a + b),
        a.len() > 0,
        b.len() > 0,
        a.len() + b.len() <= 100,
    ensures
        ({
            let one = mutated(MutationKind::MultiEdit, JsonView::Object(first), before);
            let all = mutated(MutationKind::MultiEdit, JsonView::Object(both), before);
            &&& one is Err ==> all is Err
            &&& one matches Ok(mid) ==> {
                let two = mutated(MutationKind::MultiEdit, JsonView::Object(second), mid);
                &&& two is Ok == all is Ok
                &&& all is Ok ==> all == two
            }
            &&& a.len() == 1 ==> {
                let single = mutated(MutationKind::Edit, a[0], before);
                &&& single is Ok == one is Ok
                &&& one is Ok ==> one == single
            }
        }),
{
    edits_go_on(before, a, b, b.len() as int);
    if a.len() == 1 {
        assert(edits_applied(before, a, 0) == Ok::<Seq<char>, Seq<char>>(before));
    }
}

/// What takes a change back leaves the file as it was before the change: with its text, or not
/// there.
pub proof fn undoing_gives_back_what_was_there(undo: Undo, change: FileChange)
    requires
        takes_back(undo, change),
    ensures
        change.before matches Some(text) ==> undo matches Undo::Restore(given) && given@ == text@,
        change.before is None ==> undo is Remove,
{
}

/// Whether a row shows a line of a file under its number, with spaces in front of the number.
pub open spec fn shows_line(row: Seq<char>, number: nat, line: Seq<char>, width: nat) -> bool {
    let digits = decimal(number);
    exists|pad: Seq<char>|
        {
            &&& forall|i: int| 0 <= i < pad.len() ==> #[trigger] pad[i] == ' '
            &&& row == #[trigger] (pad + digits) + ": "@ + line
            &&& (pad + digits).len() == if digits.len() < width {
                width
            } else {
                digits.len()
            }
        }
}

/// A page shows the lines of a file from the one asked for on, as many as were asked for or are
/// left, in their order and each under its number, and says how many more there are. Past the end
/// of the file there is no page.
pub proof fn pages_show_the_lines_in_their_order(
    shown: Seq<char>,
    text: Seq<char>,
    offset: nat,
    limit: nat,
)
    requires
        1 <= offset,
        1 <= limit,
    ensures
        ({
            let all = lines(text);
            let left = all.len() - offset + 1;
            let count = if limit < left {
                limit as int
            } else {
                left
            };
            let end = (offset + count - 1) as nat;
            &&& offset > all.len() ==> page(shown, text, offset, limit) == shown + " has "@
                + decimal(all.len()) + " line(s); offset "@ + decimal(offset) + " is past EOF."@
            &&& offset <= all.len() ==> exists|rows: Seq<Seq<char>>|
                {
                    &&& rows.len() == count
                    &&& forall|k: int|
                        0 <= k < rows.len() ==> shows_line(
                            #[trigger] rows[k],
                            (offset + k) as nat,
                            all[offset + k - 1],
                            decimal(end).len(),
                        )
                    &&& page(shown, text, offset, limit) == cut(
                        shown + " (lines "@ + decimal(offset) + "-"@ + decimal(end) + " of "@
                            + decimal(all.len()) + ")\n"@ + #[trigger] joined(rows, "\n"@) + (
                        if end < all.len() {
                            "\n["@ + decimal((all.len() - end) as nat) + " more line(s)]"@
                        } else {
                            Seq::empty()
                        }),
                    )
                }
        }),
{
    reveal_strlit("");
    assert(""@ =~= Seq::empty());
    let all = lines(text);
    if offset <= all.len() {
        let end = page_end(all.len(), offset, limit);
        let width = decimal(end).len();
        let rows = numbered(all, offset - 1, end as int, width as int);
        assert forall|k: int| 0 <= k < rows.len() implies shows_line(
            #[trigger] rows[k],
            (offset + k) as nat,
            all[offset + k - 1],
            width,
        ) by {
            let digits = decimal((offset + k) as nat);
            let pad = repeated(' ', width - digits.len());
            assert(rows[k] == (pad + digits) + ": "@ + all[offset + k - 1]);
        }
        assert(page(shown, text, offset, limit) == cut(
            shown + " (lines "@ + decimal(offset) + "-"@ + decimal(end) + " of "@ + decimal(
                all.len(),
            ) + ")\n"@ + joined(rows, "\n"@) + (if end < all.len() {
                "\n["@ + decimal((all.len() - end) as nat) + " more line(s)]"@
            } else {
                Seq::empty()
            }),
        ));
    }
}

/// A file is shown where it holds text: no zero byte, valid UTF-8, and nothing that looks like a
/// secret. What is shown is then a page of that text.
pub proof fn files_of_text_are_shown(
    shown: Seq<char>,
    bytes: Seq<u8>,
    secret: Option<Seq<char>>,
    offset: nat,
    limit: nat,
)
    ensures
        ({
            let r = read_answer(shown, bytes, secret, offset, limit);
            let zero = exists|i: int| 0 <= i < bytes.len() && #[trigger] bytes[i] == 0;
            &&& r is Ok <==> !zero && valid_utf8(bytes) && secret is None
            &&& r matches Ok(answer) ==> answer == page(shown, decode_utf8(bytes), offset, limit)
            &&& zero ==> r == Err::<Seq<char>, Seq<char>>(
                "Binary files cannot be returned by read_file."@,
            )
            &&& !zero && !valid_utf8(bytes) ==> r == Err::<Seq<char>, Seq<char>>(
                "File is not valid UTF-8."@,
            )
            &&& !zero && valid_utf8(bytes) ==> (secret matches Some(kind) ==> r == Err::<
                Seq<char>,
                Seq<char>,
            >("File content was withheld because it resembles a "@ + kind + "."@))
        }),
{
    if bytes.contains(0u8) {
        let i = choose|i: int| 0 <= i < bytes.len() && bytes[i] == 0u8;
        assert(bytes[i] == 0);
    }
}

/// A text argument is the text that was given under its name, where that is not empty; a number is
/// the one that was given, or the default, where it lies within its bounds.
pub proof fn arguments_are_read_as_given(
    members: Map<Seq<char>, JsonView>,
    key: Seq<char>,
    default: nat,
    min: nat,
    max: nat,
)
    ensures
        ({
            let args = JsonView::Object(members);
            let given = members.contains_key(key);
            let number = if given && members[key] is Number
                && members[key]->Number_0 is Unsigned {
                members[key]->Number_0->Unsigned_0
            } else {
                default
            };
            &&& text_arg(args, key) matches Ok(s) ==> given && members[key] == JsonView::Text(s)
                && s.len() > 0
            &&& given && members[key] is Text && members[key]->Text_0.len() > 0 ==> text_arg(
                args,
                key,
            ) == Ok::<Seq<char>, Seq<char>>(members[key]->Text_0)
            &&& number_arg(args, key, default, min, max) is Ok <==> min <= number <= max
            &&& number_arg(args, key, default, min, max) matches Ok(n) ==> n == number
        }),
{
}

/// A page is asked for by its path; without more it begins at the first line and has two hundred,
/// and it never has more than a thousand.
pub proof fn pages_are_asked_for(members: Map<Seq<char>, JsonView>)
    ensures
        ({
            let r = read_request(JsonView::Object(members));
            &&& r matches Ok((path, offset, limit)) ==> {
                &&& members.contains_key("path"@) && members["path"@] == JsonView::Text(path)
                &&& path.len() > 0 && 1 <= offset && 1 <= limit <= 1000
                &&& !members.contains_key("offset"@) ==> offset == 1
                &&& !members.contains_key("limit"@) ==> limit == 200
                &&& members.contains_key("offset"@) ==> (members["offset"@] matches JsonView::Number(
                    NumberView::Unsigned(n),
                ) ==> offset == n)
                &&& members.contains_key("limit"@) ==> (members["limit"@] matches JsonView::Number(
                    NumberView::Unsigned(n),
                ) ==> limit == n)
            }
            &&& members.contains_key("path"@) && members["path"@] is Text
                && members["path"@]->Text_0.len() > 0 && !members.contains_key("offset"@)
                && !members.contains_key("limit"@) ==> r is Ok
        }),
{
}

/// A command is asked for by its text; without more it starts in the workspace and may take half a
/// minute, and it never may take more than two. A command with a secret in it is refused.
pub proof fn commands_are_asked_for(members: Map<Seq<char>, JsonView>, secret: Option<Seq<char>>)
    ensures
        ({
            let r = command_request(JsonView::Object(members), secret);
            &&& r matches Ok((command, cwd, seconds)) ==> {
                &&& secret is None
                &&& members.contains_key("command"@) && members["command"@] == JsonView::Text(
                    command,
                )
                &&& command.len() > 0 && 1 <= seconds <= 120
                &&& !members.contains_key("cwd"@) ==> cwd == "."@
                &&& members.contains_key("cwd"@) ==> (members["cwd"@] matches JsonView::Text(dir)
                    ==> cwd == dir)
                &&& !members.contains_key("timeout_seconds"@) ==> seconds == 30
                &&& members.contains_key("timeout_seconds"@) ==> (
                members["timeout_seconds"@] matches JsonView::Number(NumberView::Unsigned(n))
                    ==> seconds == n)
            }
            &&& secret is None && members.contains_key("command"@) && members["command"@] is Text
                && members["command"@]->Text_0.len() > 0 && !members.contains_key(
                "timeout_seconds"@,
            ) ==> r is Ok
        }),
{
}

/// How an entry of a directory is listed: a directory ends in a slash and a link in an at sign.
pub proof fn entries_are_listed_by_kind(entry: DirEntry)
    ensures
        entry.kind == EntryKind::Directory ==> entry_label(entry) == entry.name@ + "/"@,
        entry.kind == EntryKind::Symlink ==> entry_label(entry) == entry.name@ + "@"@,
        entry.kind == EntryKind::File ==> entry_label(entry) == entry.name@,
{
    reveal_strlit("");
    assert(entry.name@ + ""@ =~= entry.name@);
}

/// The labels of a directory are those of its entries but for the ignored and the secret ones.
pub proof fn labels_leave_out_what_is_hidden(entries: Seq<DirEntry>, parts: Seq<Seq<PartView>>)
    requires
        parts.len() == entries.len(),
    ensures
        labels(entries, parts) == Seq::new(entries.len(), |i: int| (entries[i], parts[i])).filter(
            |e: (DirEntry, Seq<PartView>)| !holds_secret(e.1) && !e.0.ignored,
        ).map_values(|e: (DirEntry, Seq<PartView>)| entry_label(e.0)),
    decreases entries.len(),
{
    reveal(Seq::filter);
    let both = Seq::new(entries.len(), |i: int| (entries[i], parts[i]));
    let open = |e: (DirEntry, Seq<PartView>)| !holds_secret(e.1) && !e.0.ignored;
    let label = |e: (DirEntry, Seq<PartView>)| entry_label(e.0);
    if entries.len() == 0 {
        assert(both.filter(open).map_values(label) =~= Seq::empty());
    } else {
        let rest = entries.drop_last();
        let less = parts.drop_last();
        labels_leave_out_what_is_hidden(rest, less);
        labels_do_not_look_ahead(rest, less, parts);
        assert(both.drop_last() =~= Seq::new(rest.len(), |i: int| (rest[i], less[i])));
        assert(both.filter(open).map_values(label) =~= if open(both.last()) {
            both.drop_last().filter(open).map_values(label).push(label(both.last()))
        } else {
            both.drop_last().filter(open).map_values(label)
        });
    }
}

proof fn labels_do_not_look_ahead(
    entries: Seq<DirEntry>,
    a: Seq<Seq<PartView>>,
    b: Seq<Seq<PartView>>,
)
    requires
        forall|i: int| 0 <= i < entries.len() ==> a[i] == b[i],
    ensures
        labels(entries, a) == labels(entries, b),
    decreases entries.len(),
{
    if entries.len() > 0 {
        labels_do_not_look_ahead(entries.drop_last(), a, b);
    }
}

/// A directory is listed under its path with one row for each label, in the order of the labels.
pub proof fn directories_are_listed_in_order(
    shown: Seq<char>,
    entries: Seq<DirEntry>,
    parts: Seq<Seq<PartView>>,
)
    ensures
        exists|rows: Seq<Seq<char>>|
            {
                &&& rows.to_multiset() == labels(entries, parts).to_multiset()
                &&& forall|i: int, j: int|
                    0 <= i < j < rows.len() ==> text_leq(#[trigger] rows[i], #[trigger] rows[j])
                &&& listing(shown, entries, parts) == cut(
                    (if shown.len() == 0 {
                        "."@
                    } else {
                        shown
                    }) + "\n"@ + #[trigger] joined(rows, "\n"@),
                )
            },
{
    let all = labels(entries, parts);
    let rows = sorted_texts(all);
    sorted_texts_are_sorted(all);
    let leq = |a: Seq<char>, b: Seq<char>| text_leq(a, b);
    assert forall|i: int, j: int| 0 <= i < j < rows.len() implies text_leq(
        #[trigger] rows[i],
        #[trigger] rows[j],
    ) by {
        assert(leq(rows[i], rows[j]));
    }
    assert(listing(shown, entries, parts) == cut(
        (if shown.len() == 0 {
            "."@
        } else {
            shown
        }) + "\n"@ + joined(rows, "\n"@),
    ));
}

proof fn open_paths_do_not_look_ahead(
    paths: Seq<Seq<char>>,
    a: Seq<Seq<PartView>>,
    b: Seq<Seq<PartView>>,
)
    requires
        forall|i: int| 0 <= i < paths.len() ==> a[i] == b[i],
    ensures
        without_secrets(paths, a) == without_secrets(paths, b),
    decreases paths.len(),
{
    if paths.len() > 0 {
        open_paths_do_not_look_ahead(paths.drop_last(), a, b);
    }
}

/// The paths that are told of are those that hold no secret, in their order.
pub proof fn paths_leave_out_what_is_secret(paths: Seq<Seq<char>>, parts: Seq<Seq<PartView>>)
    requires
        parts.len() == paths.len(),
    ensures
        without_secrets(paths, parts) == Seq::new(
            paths.len(),
            |i: int| (paths[i], parts[i]),
        ).filter(|p: (Seq<char>, Seq<PartView>)| !holds_secret(p.1)).map_values(
            |p: (Seq<char>, Seq<PartView>)| p.0,
        ),
    decreases paths.len(),
{
    reveal(Seq::filter);
    let both = Seq::new(paths.len(), |i: int| (paths[i], parts[i]));
    let open = |p: (Seq<char>, Seq<PartView>)| !holds_secret(p.1);
    let path = |p: (Seq<char>, Seq<PartView>)| p.0;
    if paths.len() == 0 {
        assert(both.filter(open).map_values(path) =~= Seq::empty());
    } else {
        let rest = paths.drop_last();
        let less = parts.drop_last();
        paths_leave_out_what_is_secret(rest, less);
        open_paths_do_not_look_ahead(rest, less, parts);
        assert(both.drop_last() =~= Seq::new(rest.len(), |i: int| (rest[i], less[i])));
        assert(both.filter(open).map_values(path) =~= if open(both.last()) {
            both.drop_last().filter(open).map_values(path).push(path(both.last()))
        } else {
            both.drop_last().filter(open).map_values(path)
        });
    }
}

/// `glob` answers with a row for each path that holds no secret, in the order of the paths; or that
/// there is none.
pub proof fn matches_are_listed_in_order(paths: Seq<Seq<char>>, parts: Seq<Seq<PartView>>)
    ensures
        without_secrets(paths, parts).len() == 0 ==> glob_answer(paths, parts) == cut(
            "No files matched."@,
        ),
        without_secrets(paths, parts).len() > 0 ==> exists|rows: Seq<Seq<char>>|
            {
                &&& rows.to_multiset() == without_secrets(paths, parts).to_multiset()
                &&& forall|i: int, j: int|
                    0 <= i < j < rows.len() ==> text_leq(#[trigger] rows[i], #[trigger] rows[j])
                &&& glob_answer(paths, parts) == cut(#[trigger] joined(rows, "\n"@))
            },
{
    let all = without_secrets(paths, parts);
    let rows = sorted_texts(all);
    sorted_texts_are_sorted(all);
    let leq = |a: Seq<char>, b: Seq<char>| text_leq(a, b);
    assert forall|i: int, j: int| 0 <= i < j < rows.len() implies text_leq(
        #[trigger] rows[i],
        #[trigger] rows[j],
    ) by {
        assert(leq(rows[i], rows[j]));
    }
    if all.len() > 0 {
        assert(glob_answer(paths, parts) == cut(joined(rows, "\n"@)));
    }
}

/// `grep` finds the lines that match and no others, in their order, each under its file and the
/// number that it has there.
pub proof fn lines_that_match_are_found(
    pattern: Seq<char>,
    shown: Seq<char>,
    all: Seq<Seq<char>>,
    n: int,
)
    requires
        0 <= n <= all.len(),
    ensures
        hits(pattern, shown, all, n) == Seq::new(n as nat, |i: int| i).filter(
            |i: int| regex_matches(pattern, all[i]),
        ).map_values(|i: int| shown + ":"@ + decimal((i + 1) as nat) + ":"@ + all[i]),
    decreases n,
{
    reveal(Seq::filter);
    let places = Seq::new(n as nat, |i: int| i);
    let found = |i: int| regex_matches(pattern, all[i]);
    let row = |i: int| shown + ":"@ + decimal((i + 1) as nat) + ":"@ + all[i];
    if n == 0 {
        assert(places.filter(found).map_values(row) =~= Seq::empty());
    } else {
        lines_that_match_are_found(pattern, shown, all, n - 1);
        assert(places.drop_last() =~= Seq::new((n - 1) as nat, |i: int| i));
        assert(places.filter(found).map_values(row) =~= if found(places.last()) {
            places.drop_last().filter(found).map_values(row).push(row(places.last()))
        } else {
            places.drop_last().filter(found).map_values(row)
        });
    }
}

/// Of what `grep` finds the first thousand are kept, and the pattern is the one that was given, with
/// case ignored where that was asked for.
pub proof fn searches_are_asked_for(members: Map<Seq<char>, JsonView>, found: Seq<Seq<char>>)
    ensures
        capped(found).is_prefix_of(found),
        capped(found).len() == if found.len() > 1000 {
            1000
        } else {
            found.len()
        },
        ({
            let r = grep_source(JsonView::Object(members));
            let folds = members.contains_key("ignore_case"@) && members["ignore_case"@]
                == JsonView::Bool(true);
            &&& r is Ok <==> members.contains_key("pattern"@) && members["pattern"@] is Text
                && members["pattern"@]->Text_0.len() > 0
            &&& r is Ok && !folds ==> r->Ok_0 == members["pattern"@]->Text_0
            &&& r is Ok && folds ==> r->Ok_0 == "(?i)"@ + members["pattern"@]->Text_0
        }),
{
}

/// The model is shown of a command its exit code, then what it wrote and then its errors, whole
/// where they are not too long.
pub proof fn commands_are_shown_whole(code: Option<i32>, out: Seq<char>, err: Seq<char>)
    ensures
        ({
            let number = match code {
                Some(n) => signed_decimal(n as int),
                None => "unknown"@,
            };
            let first = if out.len() > 0 {
                out
            } else {
                "(empty)"@
            };
            let second = if err.len() > 0 {
                err
            } else {
                "(empty)"@
            };
            let whole = "Command exit code "@ + number + "\n\nstdout:\n"@ + first
                + "\n\nstderr:\n"@ + second;
            &&& whole.len() <= 30000 ==> command_text(code, out, err) == whole
            &&& whole.len() > 30000 ==> command_text(code, out, err) == whole.take(30000)
                + "\n[result truncated]"@
        }),
{
}

/// The diff of several changes is that of each, one after the other, from what the file held to
/// what it holds; a file that was not there held nothing.
pub proof fn diffs_follow_each_other(a: Seq<FileChange>, b: Seq<FileChange>)
    ensures
        changes_diff(a + b) == changes_diff(a) + changes_diff(b),
        b.len() == 1 ==> changes_diff(b) == unified_diff_text(
            match b[0].before {
                Some(text) => text@,
                None => ""@,
            },
            b[0].after@,
            "a/"@ + b[0].path@,
            "b/"@ + b[0].path@,
        ),
    decreases b.len(),
{
    if b.len() == 0 {
        assert(a + b =~= a);
        assert(changes_diff(a) + changes_diff(b) =~= changes_diff(a));
    } else {
        assert((a + b).drop_last() =~= a + b.drop_last());
        assert((a + b).last() == b.last());
        diffs_follow_each_other(a, b.drop_last());
        assert(changes_diff(a + b) =~= changes_diff(a) + changes_diff(b));
        if b.len() == 1 {
            assert(changes_diff(b.drop_last()) =~= Seq::empty());
            assert(changes_diff(b) =~= file_diff(
                b[0].path@,
                match b[0].before {
                    Some(text) => text@,
                    None => ""@,
                },
                b[0].after@,
            ));
        }
    }
}

/// A change is made exactly where its arguments tell what the file will hold and that holds no
/// secret; and the file then holds that.
pub proof fn secrets_are_not_written(kind: MutationKind, args: JsonView, before: Seq<char>)
    ensures
        change_planned(kind, args, before) is Ok <==> mutated(kind, args, before) is Ok
            && secret_in(mutated(kind, args, before)->Ok_0) is None,
        change_planned(kind, args, before) is Ok ==> change_planned(kind, args, before)->Ok_0
            == mutated(kind, args, before)->Ok_0,
{
}

/// Where the output of a command holds a secret, nothing of what it wrote is told: the answer is
/// the same whatever the output was, and an error.
pub proof fn outputs_with_secrets_are_withheld(
    r: ToolResult,
    other: ToolResult,
    code: Option<i32>,
    success: bool,
    truncated: bool,
    out: Seq<char>,
    err: Seq<char>,
    other_out: Seq<char>,
    other_err: Seq<char>,
    kind: Seq<char>,
)
    requires
        answers_for(r, code, success, truncated, out, err, Some(kind)),
        answers_for(other, code, success, truncated, other_out, other_err, Some(kind)),
    ensures
        r.result@ == other.result@,
        r.is_error,
        r.metadata.stdout is None,
        r.metadata.stderr is None,
        r.metadata.exit_code is None,
{
}

/// Where the output holds no secret, the answer keeps the start of what the command wrote and says
/// how it ended.
pub proof fn outputs_are_kept(
    r: ToolResult,
    code: Option<i32>,
    success: bool,
    truncated: bool,
    out: Seq<char>,
    err: Seq<char>,
)
    requires
        answers_for(r, code, success, truncated, out, err, None),
    ensures
        r.is_error <==> !success,
        r.metadata.exit_code == code,
        r.metadata.truncated == truncated,
        r.metadata.stdout matches Some(kept) && kept@.is_prefix_of(out) && (kept@.len() < 24000
            ==> kept@ == out),
        r.metadata.stderr matches Some(kept) && kept@.is_prefix_of(err) && (kept@.len() < 24000
            ==> kept@ == err),
        r.metadata.file_changes@.len() == 0,
{
}

} // verus!
