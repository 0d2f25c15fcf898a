use vstd::prelude::*;

verus! {

/// What a bound input asks the viewer to do.
#[derive(Copy, Clone, Debug, PartialEq, Eq, Structural)]
pub enum Action {
    MoveDown,
    MoveLeft,
    MoveRight,
    MoveUp,
    NextImage,
    PrevImage,
    Quit,
    Reset,
    RotateLeft,
    RotateRight,
    ZoomIn,
    ZoomOut,
    ToggleFullscreen,
}

/// A symbolic key, identified by the window system's key code number.
#[derive(Copy, Clone, Debug, PartialEq, Eq, Structural)]
pub struct Key(pub u32);

/// One row of the binding table: a character, a symbolic key, or both,
/// and the action they trigger.
pub type Bind = (Option<char>, Option<Key>, Action);

/// An ordered table from input symbols to actions; the first match wins.
#[derive(Clone)]
pub struct Binds {
    binds: Vec<Bind>,
}

/// The action of the first row of `table` bound to character `c`.
pub open spec fn first_char_match(table: Seq<Bind>, c: char) -> Option<Action>
    decreases table.len(),
{
    if table.len() == 0 {
        None
    } else if table[0].0 == Some(c) {
        Some(table[0].2)
    } else {
        first_char_match(table.drop_first(), c)
    }
}

/// The action of the first row of `table` bound to key `k`.
pub open spec fn first_key_match(table: Seq<Bind>, k: Key) -> Option<Action>
    decreases table.len(),
{
    if table.len() == 0 {
        None
    } else if table[0].1 == Some(k) {
        Some(table[0].2)
    } else {
        first_key_match(table.drop_first(), k)
    }
}

/// The characters bound by the default table, in order.
pub open spec fn default_table() -> Seq<Bind> {
    seq![
        (Some('='), None, Action::Reset),
        (Some('h'), None, Action::MoveLeft),
        (Some('j'), None, Action::MoveDown),
        (Some('k'), None, Action::MoveUp),
        (Some('l'), None, Action::MoveRight),
        (Some('q'), None, Action::Quit),
        (Some('+'), None, Action::ZoomIn),
        (Some('-'), None, Action::ZoomOut),
        (Some('f'), None, Action::ToggleFullscreen),
        (Some('n'), None, Action::NextImage),
        (Some('p'), None, Action::PrevImage),
        (Some('<'), None, Action::RotateLeft),
        (Some('>'), None, Action::RotateRight),
    ]
}

impl Binds {
    pub closed spec fn table(&self) -> Seq<Bind> {
        self.binds@
    }

    /// A table holding exactly the given rows, in order.
    pub fn from_table(binds: Vec<Bind>) -> (r: Binds)
        ensures
            r.table() == binds@,
    {
        Binds { binds }
    }

    /// The action bound to character `input`, if any row binds it.
    pub fn get_action_char(&self, input: char) -> (r: Option<Action>)
        ensures
            r == first_char_match(self.table(), input),
    {
        let mut i: usize = 0;
        proof {
            assert(self.binds@.skip(0) =~= self.binds@);
        }
        while i < self.binds.len()
            invariant
                i <= self.binds@.len(),
                first_char_match(self.binds@, input) == first_char_match(
                    self.binds@.skip(i as int),
                    input,
                ),
            decreases self.binds@.len() - i,
        {
            let row = &self.binds[i];
            proof {
                let rest = self.binds@.skip(i as int);
                assert(rest.drop_first() =~= self.binds@.skip(i + 1));
            }
            if row.0 == Some(input) {
                return Some(row.2);
            }
            i = i + 1;
        }
        proof {
            assert(self.binds@.skip(i as int).len() == 0);
        }
        None
    }

    /// The action bound to the symbolic key `input`, if any row binds it.
    pub fn get_action(&self, input: Key) -> (r: Option<Action>)
        ensures
            r == first_key_match(self.table(), input),
    {
        let mut i: usize = 0;
        proof {
            assert(self.binds@.skip(0) =~= self.binds@);
        }
        while i < self.binds.len()
            invariant
                i <= self.binds@.len(),
                first_key_match(self.binds@, input) == first_key_match(
                    self.binds@.skip(i as int),
                    input,
                ),
            decreases self.binds@.len() - i,
        {
            let row = &self.binds[i];
            proof {
                let rest = self.binds@.skip(i as int);
                assert(rest.drop_first() =~= self.binds@.skip(i + 1));
            }
            if row.1 == Some(input) {
                return Some(row.2);
            }
            i = i + 1;
        }
        proof {
            assert(self.binds@.skip(i as int).len() == 0);
        }
        None
    }
}

impl Binds {
    /// A copy of this table, row for row.
    pub fn copied(&self) -> (r: Binds)
        ensures
            r.table() == self.table(),
    {
        let mut rows: Vec<Bind> = Vec::new();
        let mut i: usize = 0;
        while i < self.binds.len()
            invariant
                i <= self.binds@.len(),
                rows@ =~= self.binds@.take(i as int),
            decreases self.binds@.len() - i,
        {
            rows.push(self.binds[i]);
            i = i + 1;
            proof {
                assert(rows@ =~= self.binds@.take(i as int));
            }
        }
        proof {
            assert(self.binds@.take(i as int) =~= self.binds@);
        }
        Binds { binds: rows }
    }
}

impl Default for Binds {
    /// The viewer's standard bindings: vi-style movement keys, `+`/`-` to
    /// zoom, `<`/`>` to rotate, `n`/`p` to change image, `=` to reset,
    /// `f` for fullscreen and `q` to quit.
    fn default() -> (r: Binds)
        ensures
            r.table() == default_table(),
    {
        let binds: Vec<Bind> = vec![
            (Some('='), None, Action::Reset),
            (Some('h'), None, Action::MoveLeft),
            (Some('j'), None, Action::MoveDown),
            (Some('k'), None, Action::MoveUp),
            (Some('l'), None, Action::MoveRight),
            (Some('q'), None, Action::Quit),
            (Some('+'), None, Action::ZoomIn),
            (Some('-'), None, Action::ZoomOut),
            (Some('f'), None, Action::ToggleFullscreen),
            (Some('n'), None, Action::NextImage),
            (Some('p'), None, Action::PrevImage),
            (Some('<'), None, Action::RotateLeft),
            (Some('>'), None, Action::RotateRight),
        ];
        proof {
            assert(binds@ =~= default_table());
        }
        Binds { binds }
    }
}

} // verus!
