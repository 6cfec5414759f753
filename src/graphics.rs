use vstd::prelude::*;
use vstd::string::StringExecFns;
use crate::grid::GraphicsBuf;

verus! {

/// What a game shows: a title, the main buffer and an optional side panel.
pub struct Graphics {
    pub title: String,
    pub side_panel: Option<SidePanel>,
    pub buf: GraphicsBuf,
}

impl Graphics {
    pub fn new(title: String, side_panel: Option<SidePanel>, graphics: GraphicsBuf) -> (r: Self)
        ensures
            r.title@ == title@,
            r.side_panel == side_panel,
            r.buf == graphics,
    {
        Self { title, side_panel, buf: graphics }
    }

    pub fn side_panel(&self) -> (r: Option<&SidePanel>)
        ensures
            r == match self.side_panel {
                Some(p) => Some(&p),
                None => None::<&SidePanel>,
            },
    {
        self.side_panel.as_ref()
    }

    /// Replaces the item at `index` of the side panel.
    pub fn set_panel_item(&mut self, index: usize, item: PanelItem)
        requires
            old(self).side_panel matches Some(p) && index < p.items@.len(),
        ensures
            final(self).side_panel matches Some(p) && p.items@ == old(self).side_panel->Some_0.items@.update(
                index as int,
                item,
            ),
            final(self).title == old(self).title,
            final(self).buf == old(self).buf,
    {
        match &mut self.side_panel {
            Some(panel) => {
                panel.items.set(index, item);
            },
            None => {},
        }
    }
}

#[derive(Debug)]
pub struct SidePanel {
    pub items: Vec<PanelItem>,
}

impl SidePanel {
    /// The graphics buffer held by the item at `index`, which must be one.
    pub fn unwrap_graphics_item_mut(&mut self, index: usize) -> (r: &mut GraphicsBuf)
        requires
            index < old(self).items@.len(),
            old(self).items@[index as int] is GraphicsItem,
        ensures
            *r == old(self).items@[index as int]->GraphicsItem_buf,
            final(self).items@ == old(self).items@.update(
                index as int,
                PanelItem::GraphicsItem { buf: *final(r) },
            ),
    {
        match &mut self.items[index] {
            PanelItem::GraphicsItem { buf } => buf,
            PanelItem::TextItem { .. } => unreached(),
        }
    }

    /// The text held by the item at `index`, which must be one.
    pub fn unwrap_text_item_mut(&mut self, index: usize) -> (r: &mut String)
        requires
            index < old(self).items@.len(),
            old(self).items@[index as int] is TextItem,
        ensures
            *r == old(self).items@[index as int]->TextItem_text,
            final(self).items@ == old(self).items@.update(
                index as int,
                PanelItem::TextItem { text: *final(r) },
            ),
    {
        match &mut self.items[index] {
            PanelItem::TextItem { text } => text,
            PanelItem::GraphicsItem { .. } => unreached(),
        }
    }
}

#[derive(Debug)]
pub enum PanelItem {
    TextItem { text: String },
    GraphicsItem { buf: GraphicsBuf },
}

/// The character of a decimal digit.
pub open spec fn digit_char(d: int) -> char {
    if d == 0 {
        '0'
    } else if d == 1 {
        '1'
    } else if d == 2 {
        '2'
    } else if d == 3 {
        '3'
    } else if d == 4 {
        '4'
    } else if d == 5 {
        '5'
    } else if d == 6 {
        '6'
    } else if d == 7 {
        '7'
    } else if d == 8 {
        '8'
    } else {
        '9'
    }
}

/// `n` in decimal, without leading zeros.
pub open spec fn decimal(n: nat) -> Seq<char>
    decreases n,
{
    if n < 10 {
        seq![digit_char(n as int)]
    } else {
        decimal(n / 10).push(digit_char((n % 10) as int))
    }
}

fn digit_str(d: u64) -> (r: &'static str)
    requires
        d < 10,
    ensures
        r@ == seq![digit_char(d as int)],
{
    if d == 0 {
        proof { reveal_strlit("0"); }
        "0"
    } else if d == 1 {
        proof { reveal_strlit("1"); }
        "1"
    } else if d == 2 {
        proof { reveal_strlit("2"); }
        "2"
    } else if d == 3 {
        proof { reveal_strlit("3"); }
        "3"
    } else if d == 4 {
        proof { reveal_strlit("4"); }
        "4"
    } else if d == 5 {
        proof { reveal_strlit("5"); }
        "5"
    } else if d == 6 {
        proof { reveal_strlit("6"); }
        "6"
    } else if d == 7 {
        proof { reveal_strlit("7"); }
        "7"
    } else if d == 8 {
        proof { reveal_strlit("8"); }
        "8"
    } else {
        proof { reveal_strlit("9"); }
        "9"
    }
}

/// Appends `n` in decimal to `text`.
pub fn append_decimal(text: &mut String, n: u64)
    ensures
        final(text)@ == old(text)@ + decimal(n as nat),
    decreases n,
{
    if n >= 10 {
        append_decimal(text, n / 10);
    }
    text.append(digit_str(n % 10));
    proof {
        if n >= 10 {
            assert(old(text)@ + decimal((n / 10) as nat) + seq![digit_char((n % 10) as int)] =~= old(text)@
                + decimal(n as nat));
        } else {
            assert(old(text)@ + seq![digit_char((n % 10) as int)] =~= old(text)@ + decimal(n as nat));
        }
    }
}

/// `prefix` followed by `n` in decimal, for the status texts.
pub fn labelled(prefix: &str, n: u32) -> (r: String)
    ensures
        r@ == prefix@ + decimal(n as nat),
{
    let mut text = prefix.to_string();
    append_decimal(&mut text, n as u64);
    text
}

} // verus!
