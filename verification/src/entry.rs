//! The raw snapshot of a directory's contents that the caller hands in:
//! one [`Entry`] per file-system entry, directories carrying the entries
//! found inside them, in the order the caller listed them.

use vstd::prelude::*;

verus! {

/// One file-system entry of the snapshot.  A directory carries its own
/// direct entries; anything that is not a directory is a `File` and
/// carries nothing but its name.
pub enum Entry {
    Dir { name: String, entries: Vec<Entry> },
    File { name: String },
}

/// The mathematical value of an [`Entry`]: names as character sequences,
/// entry lists as sequences.
pub enum EntryView {
    Dir { name: Seq<char>, entries: Seq<EntryView> },
    File { name: Seq<char> },
}

impl Entry {
    pub open spec fn view(self) -> EntryView
        decreases self,
    {
        match self {
            Entry::Dir { name, entries } => EntryView::Dir {
                name: name@,
                entries: entry_views(entries@),
            },
            Entry::File { name } => EntryView::File { name: name@ },
        }
    }
}

/// The values of a sequence of entries, element by element.
pub open spec fn entry_views(es: Seq<Entry>) -> Seq<EntryView>
    decreases es,
{
    if es.len() == 0 {
        Seq::empty()
    } else {
        entry_views(es.drop_last()).push(es.last().view())
    }
}

impl EntryView {
    /// The display name the snapshot reports for this entry (for a
    /// directory, without the trailing separator the tree will add).
    pub open spec fn name(self) -> Seq<char> {
        match self {
            EntryView::Dir { name, .. } => name,
            EntryView::File { name } => name,
        }
    }

    /// How deeply directories nest below this entry: zero for a file or
    /// an empty directory, one more than the deepest child otherwise.
    pub open spec fn height(self) -> nat
        decreases self,
    {
        match self {
            EntryView::Dir { entries, .. } => 1 + entries_height(entries),
            EntryView::File { .. } => 0,
        }
    }
}

/// The largest height among a sequence of entries.
pub open spec fn entries_height(es: Seq<EntryView>) -> nat
    decreases es,
{
    if es.len() == 0 {
        0
    } else if es.last().height() > entries_height(es.drop_last()) {
        es.last().height()
    } else {
        entries_height(es.drop_last())
    }
}

/// `entry_views` maps the sequence element by element.
pub proof fn lemma_entry_views_index(es: Seq<Entry>)
    ensures
        entry_views(es).len() == es.len(),
        forall|i: int| 0 <= i < es.len() ==> entry_views(es)[i] == es[i].view(),
    decreases es,
{
    if es.len() > 0 {
        lemma_entry_views_index(es.drop_last());
    }
}

/// No entry of a sequence is higher than the sequence's height.
pub proof fn lemma_entries_height_ge(es: Seq<EntryView>, i: int)
    requires
        0 <= i < es.len(),
    ensures
        es[i].height() <= entries_height(es),
    decreases es,
{
    if i < es.len() - 1 {
        lemma_entries_height_ge(es.drop_last(), i);
    }
}

} // verus!
