//! A panel: a titled block of text lines, one per metric family and poll.
use vstd::prelude::*;

verus! {

/// How many terminal columns a line of text takes.
pub uninterp spec fn display_width(s: Seq<char>) -> nat;

/// Relies on ratatui's `Line::width`: the columns that the line's text takes on
/// a terminal, which depends on the text alone.
#[verifier::external_body]
fn line_width(s: &str) -> (r: usize)
    ensures
        r as nat == display_width(s@),
{
    ratatui::text::Line::from(s).width()
}

/// A byte count as shown on a panel: the value in the binary unit that suits it,
/// to two decimals, followed at once by the unit (`4.20GiB`).
pub uninterp spec fn binary_size_text(bytes: nat) -> Seq<char>;

/// Relies on byte_unit's `Byte::get_appropriate_unit` with `UnitType::Binary`:
/// the largest binary unit not above the size, with the size's value in it;
/// the text depends on the byte count alone.
#[verifier::external_body]
pub(crate) fn size_text(bytes: u64) -> (r: String)
    ensures
        r@ == binary_size_text(bytes as nat),
{
    let a = byte_unit::Byte::from_u64(bytes).get_appropriate_unit(byte_unit::UnitType::Binary);
    format!("{:.2}{}", a.get_value(), a.get_unit())
}

/// Appends the panel text of a byte count to `out`.
pub(crate) fn push_size(out: &mut String, bytes: u64)
    ensures
        final(out)@ == old(out)@ + binary_size_text(bytes as nat),
{
    let t = size_text(bytes);
    out.append(t.as_str());
}

/// A block of text lines under a title.
#[derive(Clone, Debug, PartialEq, Eq)]
pub struct Mouse {
    title: String,
    content: Vec<String>,
}

pub open spec fn max_width(ls: Seq<Seq<char>>) -> nat
    decreases ls.len(),
{
    if ls.len() == 0 {
        0
    } else {
        let w = display_width(ls.last());
        let rest = max_width(ls.drop_last());
        if w > rest {
            w
        } else {
            rest
        }
    }
}

impl Mouse {
    pub closed spec fn heading(&self) -> Seq<char> {
        self.title@
    }

    /// The lines, in order.
    pub closed spec fn lines(&self) -> Seq<Seq<char>> {
        self.content@.map_values(|l: String| l@)
    }

    /// An empty block under `title`.
    pub fn new(title: String) -> (r: Mouse)
        ensures
            r.heading() == title@,
            r.lines() == Seq::<Seq<char>>::empty(),
    {
        let r = Mouse { title, content: Vec::new() };
        assert(r.lines() =~= Seq::<Seq<char>>::empty());
        r
    }

    /// Adds a line at the end.
    pub fn add(&mut self, content: String)
        ensures
            final(self).heading() == old(self).heading(),
            final(self).lines() == old(self).lines().push(content@),
    {
        self.content.push(content);
        assert(self.lines() =~= old(self).lines().push(content@));
    }

    pub fn title(&self) -> (r: &String)
        ensures
            r@ == self.heading(),
    {
        &self.title
    }

    pub fn content(&self) -> (r: &Vec<String>)
        ensures
            r@.map_values(|l: String| l@) == self.lines(),
    {
        &self.content
    }

    /// Rows the block takes with its top and bottom border.
    pub fn content_height(&self) -> (r: usize)
        requires
            self.lines().len() + 2 <= usize::MAX,
        ensures
            r == self.lines().len() + 2,
    {
        self.content.len() + 2
    }

    /// Columns that the widest line, or the title, takes.
    pub fn content_width(&self) -> (r: usize)
        ensures
            r as nat == if max_width(self.lines()) > display_width(self.heading()) {
                max_width(self.lines())
            } else {
                display_width(self.heading())
            },
    {
        let mut widest: usize = 0;
        let mut i: usize = 0;
        let ghost ls = self.lines();
        assert(ls.subrange(0, 0) =~= Seq::<Seq<char>>::empty());
        while i < self.content.len()
            invariant
                i <= self.content@.len(),
                ls == self.lines(),
                ls.len() == self.content@.len(),
                widest as nat == max_width(ls.subrange(0, i as int)),
            decreases self.content.len() - i,
        {
            assert(ls.subrange(0, i + 1).drop_last() =~= ls.subrange(0, i as int));
            assert(ls.subrange(0, i + 1).last() == self.content@[i as int]@);
            let w = line_width(self.content[i].as_str());
            if w > widest {
                widest = w;
            }
            i = i + 1;
        }
        assert(ls.subrange(0, i as int) =~= ls);
        let t = line_width(self.title.as_str());
        if widest > t {
            widest
        } else {
            t
        }
    }
}

} // verus!
