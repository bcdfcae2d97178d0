use vstd::prelude::*;
use vstd::string::StrSliceExecFns;

use crate::util::Vec2;

verus! {

/// One character to paint at an absolute screen position.
#[derive(Clone, Copy, Debug, PartialEq, Eq, Structural)]
pub struct Pixel {
    pub x: u16,
    pub y: u16,
    pub ch: char,
}

/// A piece of text to print starting at an absolute screen position.
pub struct TextCmd {
    pub x: u16,
    pub y: u16,
    pub text: String,
}

/// The left column of a window border.
pub open spec fn border_left(pos: Vec2, size: Vec2) -> Seq<Pixel> {
    Seq::new((size.y - 1) as nat, |k: int| Pixel { x: pos.x, y: (pos.y + 1 + k) as u16, ch: '│' })
}

/// The right column of a window border.
pub open spec fn border_right(pos: Vec2, size: Vec2) -> Seq<Pixel> {
    Seq::new(
        (size.y - 1) as nat,
        |k: int| Pixel { x: (pos.x + size.x) as u16, y: (pos.y + 1 + k) as u16, ch: '│' },
    )
}

/// The top row of a window border.
pub open spec fn border_top(pos: Vec2, size: Vec2) -> Seq<Pixel> {
    Seq::new((size.x - 1) as nat, |k: int| Pixel { x: (pos.x + 1 + k) as u16, y: pos.y, ch: '─' })
}

/// The bottom row of a window border.
pub open spec fn border_bottom(pos: Vec2, size: Vec2) -> Seq<Pixel> {
    Seq::new(
        (size.x - 1) as nat,
        |k: int| Pixel { x: (pos.x + 1 + k) as u16, y: (pos.y + size.y) as u16, ch: '─' },
    )
}

/// The four corners of a window border.
pub open spec fn border_corners(pos: Vec2, size: Vec2) -> Seq<Pixel> {
    seq![
        Pixel { x: pos.x, y: pos.y, ch: '┌' },
        Pixel { x: (pos.x + size.x) as u16, y: pos.y, ch: '┐' },
        Pixel { x: pos.x, y: (pos.y + size.y) as u16, ch: '└' },
        Pixel { x: (pos.x + size.x) as u16, y: (pos.y + size.y) as u16, ch: '┘' },
    ]
}

/// The draw commands for the border of a window: the two columns, the two
/// rows, then the four corners.
pub open spec fn border_cmds(pos: Vec2, size: Vec2) -> Seq<Pixel> {
    border_left(pos, size) + border_right(pos, size) + border_top(pos, size) + border_bottom(
        pos,
        size,
    ) + border_corners(pos, size)
}

/// A rectangular region of the screen, described by its top-left corner
/// and its extent.  A window only computes where things go: its methods
/// return draw commands, and the caller carries them to the terminal.
pub struct Window {
    pos: Vec2,
    size: Vec2,
    title: Option<String>,
}

impl Window {
    pub closed spec fn pos_spec(&self) -> Vec2 {
        self.pos
    }

    pub closed spec fn size_spec(&self) -> Vec2 {
        self.size
    }

    pub closed spec fn title_spec(&self) -> Option<Seq<char>> {
        match self.title {
            Some(t) => Some(t@),
            None => None,
        }
    }

    pub fn new(x: u16, y: u16, width: u16, height: u16) -> (w: Self)
        ensures
            w.pos_spec() == (Vec2 { x, y }),
            w.size_spec() == (Vec2 { x: width, y: height }),
            w.title_spec() is None,
    {
        Self { pos: Vec2 { x, y }, size: Vec2 { x: width, y: height }, title: None }
    }

    /// The window of the given extent whose middle is `(cx, cy)` — for a
    /// window centered on the screen, the middle of the screen.
    pub fn centered(cx: u16, cy: u16, width: u16, height: u16) -> (w: Self)
        requires
            width / 2 <= cx,
            height / 2 <= cy,
        ensures
            w.pos_spec() == (Vec2 { x: (cx - width / 2) as u16, y: (cy - height / 2) as u16 }),
            w.size_spec() == (Vec2 { x: width, y: height }),
            w.title_spec() is None,
    {
        Window::new(cx - width / 2, cy - height / 2, width, height)
    }

    pub fn set_title(&mut self, title: &str)
        ensures
            final(self).pos_spec() == old(self).pos_spec(),
            final(self).size_spec() == old(self).size_spec(),
            final(self).title_spec() == Some(title@),
    {
        self.title = Some(title.to_owned());
    }

    /// The window's top-left corner.
    pub fn pos(&self) -> (p: Vec2)
        ensures
            p == self.pos_spec(),
    {
        self.pos
    }

    /// The window's extent.
    pub fn size(&self) -> (s: Vec2)
        ensures
            s == self.size_spec(),
    {
        self.size
    }

    /// The title, if one was set.
    pub fn title(&self) -> (t: &Option<String>)
        ensures
            t is Some <==> self.title_spec() is Some,
            t matches Some(s) ==> self.title_spec() == Some(s@),
    {
        &self.title
    }

    /// The window one cell inside this one's border.
    pub fn inner(&self) -> (w: Self)
        requires
            self.pos_spec().x + 1 <= u16::MAX,
            self.pos_spec().y + 1 <= u16::MAX,
            2 <= self.size_spec().x,
            2 <= self.size_spec().y,
        ensures
            w.pos_spec().x == self.pos_spec().x + 1,
            w.pos_spec().y == self.pos_spec().y + 1,
            w.size_spec().x == self.size_spec().x - 2,
            w.size_spec().y == self.size_spec().y - 2,
            w.title_spec() is None,
    {
        Self {
            pos: Vec2 { x: self.pos.x + 1, y: self.pos.y + 1 },
            size: Vec2 { x: self.size.x - 2, y: self.size.y - 2 },
            title: None,
        }
    }

    /// The window one cell outside this one's border.
    pub fn outer(&self) -> (w: Self)
        requires
            1 <= self.pos_spec().x,
            1 <= self.pos_spec().y,
            self.size_spec().x + 2 <= u16::MAX,
            self.size_spec().y + 2 <= u16::MAX,
        ensures
            w.pos_spec().x == self.pos_spec().x - 1,
            w.pos_spec().y == self.pos_spec().y - 1,
            w.size_spec().x == self.size_spec().x + 2,
            w.size_spec().y == self.size_spec().y + 2,
            w.title_spec() is None,
    {
        Self {
            pos: Vec2 { x: self.pos.x - 1, y: self.pos.y - 1 },
            size: Vec2 { x: self.size.x + 2, y: self.size.y + 2 },
            title: None,
        }
    }

    /// The command painting `c` at the window-relative position `(x, y)`.
    pub fn pixel(&self, x: u16, y: u16, c: char) -> (p: Pixel)
        requires
            self.pos_spec().x + x <= u16::MAX,
            self.pos_spec().y + y <= u16::MAX,
        ensures
            p == (Pixel {
                x: (self.pos_spec().x + x) as u16,
                y: (self.pos_spec().y + y) as u16,
                ch: c,
            }),
    {
        Pixel { x: self.pos.x + x, y: self.pos.y + y, ch: c }
    }

    /// The command printing `s` at the window-relative position `(x, y)`.
    pub fn print_str(&self, x: u16, y: u16, s: &str) -> (t: TextCmd)
        requires
            x + self.pos_spec().x <= u16::MAX,
            y + self.pos_spec().y <= u16::MAX,
        ensures
            t.x == x + self.pos_spec().x,
            t.y == y + self.pos_spec().y,
            t.text@ == s@,
    {
        TextCmd { x: x + self.pos.x, y: y + self.pos.y, text: s.to_owned() }
    }

    /// The command printing `s` horizontally centered in the window, at the
    /// window-relative line `y`.
    pub fn print_centered_str(&self, y: u16, s: &str) -> (t: TextCmd)
        requires
            s@.len() <= u16::MAX,
            s@.len() as int / 2 <= self.size_spec().x / 2,
            self.size_spec().x / 2 - s@.len() as int / 2 + self.pos_spec().x <= u16::MAX,
            y + self.pos_spec().y <= u16::MAX,
        ensures
            t.x == self.size_spec().x / 2 - s@.len() as int / 2 + self.pos_spec().x,
            t.y == y + self.pos_spec().y,
            t.text@ == s@,
    {
        let count = s.unicode_len();
        TextCmd {
            x: self.size.x / 2 - (count / 2) as u16 + self.pos.x,
            y: y + self.pos.y,
            text: s.to_owned(),
        }
    }

    /// The commands painting the window's border: both columns, both rows,
    /// and the four corners, in that order.  The title, if any, is printed
    /// over the top border by the caller.
    pub fn draw_borders(&self) -> (cmds: Vec<Pixel>)
        requires
            1 <= self.size_spec().x,
            1 <= self.size_spec().y,
            self.pos_spec().x + self.size_spec().x <= u16::MAX,
            self.pos_spec().y + self.size_spec().y <= u16::MAX,
        ensures
            cmds@ == border_cmds(self.pos_spec(), self.size_spec()),
    {
        let ghost p = self.pos_spec();
        let ghost s = self.size_spec();
        let px = self.pos.x;
        let py = self.pos.y;
        let sx = self.size.x;
        let sy = self.size.y;
        let mut cmds: Vec<Pixel> = Vec::new();
        let mut y: u16 = 1;
        while y < sy
            invariant
                1 <= y <= sy,
                py + sy <= u16::MAX,
                px == p.x && py == p.y && sx == s.x && sy == s.y,
                cmds@ == border_left(p, s).take(y - 1),
            decreases sy - y,
        {
            cmds.push(Pixel { x: px, y: py + y, ch: '│' });
            y += 1;
            proof {
                assert(cmds@ =~= border_left(p, s).take(y - 1));
            }
        }
        proof {
            assert(cmds@ =~= border_left(p, s));
        }
        let mut y2: u16 = 1;
        while y2 < sy
            invariant
                1 <= y2 <= sy,
                py + sy <= u16::MAX,
                px + sx <= u16::MAX,
                px == p.x && py == p.y && sx == s.x && sy == s.y,
                cmds@ == border_left(p, s) + border_right(p, s).take(y2 - 1),
            decreases sy - y2,
        {
            cmds.push(Pixel { x: px + sx, y: py + y2, ch: '│' });
            y2 += 1;
            proof {
                assert(cmds@ =~= border_left(p, s) + border_right(p, s).take(y2 - 1));
            }
        }
        proof {
            assert(cmds@ =~= border_left(p, s) + border_right(p, s));
        }
        let ghost verticals = border_left(p, s) + border_right(p, s);
        let mut x: u16 = 1;
        while x < sx
            invariant
                1 <= x <= sx,
                py + sy <= u16::MAX,
                px + sx <= u16::MAX,
                px == p.x && py == p.y && sx == s.x && sy == s.y,
                verticals == border_left(p, s) + border_right(p, s),
                cmds@ == verticals + border_top(p, s).take(x - 1),
            decreases sx - x,
        {
            cmds.push(Pixel { x: px + x, y: py, ch: '─' });
            x += 1;
            proof {
                assert(cmds@ =~= verticals + border_top(p, s).take(x - 1));
            }
        }
        proof {
            assert(cmds@ =~= verticals + border_top(p, s));
        }
        let ghost upper = verticals + border_top(p, s);
        let mut x2: u16 = 1;
        while x2 < sx
            invariant
                1 <= x2 <= sx,
                py + sy <= u16::MAX,
                px + sx <= u16::MAX,
                px == p.x && py == p.y && sx == s.x && sy == s.y,
                upper == (border_left(p, s) + border_right(p, s)) + border_top(p, s),
                cmds@ == upper + border_bottom(p, s).take(x2 - 1),
            decreases sx - x2,
        {
            cmds.push(Pixel { x: px + x2, y: py + sy, ch: '─' });
            x2 += 1;
            proof {
                assert(cmds@ =~= upper + border_bottom(p, s).take(x2 - 1));
            }
        }
        proof {
            assert(cmds@ =~= upper + border_bottom(p, s));
        }
        cmds.push(Pixel { x: px, y: py, ch: '┌' });
        cmds.push(Pixel { x: px + sx, y: py, ch: '┐' });
        cmds.push(Pixel { x: px, y: py + sy, ch: '└' });
        cmds.push(Pixel { x: px + sx, y: py + sy, ch: '┘' });
        proof {
            assert(cmds@ =~= border_cmds(p, s));
        }
        cmds
    }
}

} // verus!
