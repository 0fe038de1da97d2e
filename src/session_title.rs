//! The display title of the running session, held by the component that
//! renders it rather than in process-wide state.
use vstd::prelude::*;

verus! {

/// Holds the current display title, if one has been set.
pub struct TitleCell {
    pub title: Option<String>,
}

impl TitleCell {
    pub open spec fn view_title(&self) -> Option<Seq<char>> {
        match self.title {
            Some(t) => Some(t@),
            None => None,
        }
    }
}

/// A fresh cell holding no title.
pub fn cell() -> (r: TitleCell)
    ensures
        r.view_title() == None::<Seq<char>>,
{
    TitleCell { title: None }
}

/// Replaces the title held by `cell`.
pub fn set(cell: &mut TitleCell, title: String)
    ensures
        final(cell).view_title() == Some(title@),
{
    cell.title = Some(title);
}

/// The title held by `cell`, if any.
pub fn get(cell: &TitleCell) -> (r: Option<String>)
    ensures
        match r {
            Some(t) => cell.view_title() == Some(t@),
            None => cell.view_title() == None::<Seq<char>>,
        },
{
    match &cell.title {
        Some(t) => Some(t.clone()),
        None => None,
    }
}

} // verus!
