use vstd::prelude::*;

verus! {

/// A key of the keyboard, as far as the selector tells keys apart.
#[derive(Debug, Clone, Copy, PartialEq, Eq)]
pub enum Key {
    Char(char),
    Esc,
    Enter,
    Up,
    Down,
    Other,
}

/// What happened to a key. Only a press is acted on.
#[derive(Debug, Clone, Copy, PartialEq, Eq)]
pub enum KeyKind {
    Press,
    Repeat,
    Release,
}

/// What the selector answers to a key event.
#[derive(Debug, Clone, PartialEq, Eq)]
pub enum Choice {
    /// Nothing is decided yet: draw again and wait for the next event.
    Pending,
    /// The user left without choosing.
    Cancelled,
    /// The user chose the item with this identifier.
    Selected(String),
}

/// A `Choice` as contracts see it.
pub enum ChoiceModel {
    Pending,
    Cancelled,
    Selected(Seq<char>),
}

impl View for Choice {
    type V = ChoiceModel;

    open spec fn view(&self) -> ChoiceModel {
        match self {
            Choice::Pending => ChoiceModel::Pending,
            Choice::Cancelled => ChoiceModel::Cancelled,
            Choice::Selected(id) => ChoiceModel::Selected(id@),
        }
    }
}

/// Whether the event is a press of a key that leaves without choosing: `q` or
/// escape.
pub open spec fn cancels(key: Key, kind: KeyKind) -> bool {
    kind is Press && (key == Key::Char('q') || key is Esc)
}

/// Whether the event is a press of the key that chooses the highlighted item.
pub open spec fn confirms(key: Key, kind: KeyKind) -> bool {
    kind is Press && key is Enter
}

/// Where the highlight stands after the event, in a list of `count` items
/// with the highlight at `at`: a press of "down" moves it one further and from
/// the last item to the first, a press of "up" one back and from the first
/// item to the last. Nothing else moves it.
pub open spec fn moved(count: int, at: int, key: Key, kind: KeyKind) -> int {
    if kind is Press && key is Down {
        if at >= count - 1 {
            0
        } else {
            at + 1
        }
    } else if kind is Press && key is Up {
        if at == 0 {
            count - 1
        } else {
            at - 1
        }
    } else {
        at
    }
}

/// What the selector answers to the event, with the highlight at `at`.
pub open spec fn answer(
    items: Seq<(Seq<char>, Seq<char>)>,
    at: int,
    key: Key,
    kind: KeyKind,
) -> ChoiceModel {
    if cancels(key, kind) {
        ChoiceModel::Cancelled
    } else if confirms(key, kind) {
        ChoiceModel::Selected(items[at].1)
    } else {
        ChoiceModel::Pending
    }
}

/// A list of items, each a text to show and an identifier, of which one is
/// highlighted. The list is never empty.
pub struct Selector {
    items: Vec<(String, String)>,
    highlighted: usize,
}

impl Selector {
    #[verifier::type_invariant]
    spec fn inv(&self) -> bool {
        self.highlighted < self.items@.len()
    }

    /// The items, each as text and identifier.
    pub closed spec fn items(&self) -> Seq<(Seq<char>, Seq<char>)> {
        self.items.deep_view()
    }

    /// The position of the highlighted item.
    pub closed spec fn highlight(&self) -> int {
        self.highlighted as int
    }

    /// A selector over `items` with the first item highlighted; none where
    /// there is nothing to select from.
    pub fn new(items: Vec<(String, String)>) -> (r: Option<Selector>)
        ensures
            items@.len() == 0 <==> r is None,
            r matches Some(selector) ==> selector.items() == items.deep_view()
                && selector.highlight() == 0,
    {
        if items.len() == 0 {
            None
        } else {
            Some(Selector { items, highlighted: 0 })
        }
    }

    /// The number of items.
    pub fn len(&self) -> (n: usize)
        ensures
            n == self.items().len(),
            n > 0,
            0 <= self.highlight() < n,
    {
        proof {
            use_type_invariant(self);
        }
        self.items.len()
    }

    /// The position of the highlighted item.
    pub fn highlighted(&self) -> (at: usize)
        ensures
            at == self.highlight(),
            at < self.items().len(),
    {
        proof {
            use_type_invariant(self);
        }
        self.highlighted
    }

    /// The items, each as text and identifier, in the order in which they
    /// are shown.
    pub fn list(&self) -> (list: &Vec<(String, String)>)
        ensures
            list.deep_view() == self.items(),
    {
        &self.items
    }

    /// Takes one key event: moves the highlight as the event says, and
    /// answers whether the user has chosen, has left, or neither.
    pub fn handle_key(&mut self, key: Key, kind: KeyKind) -> (choice: Choice)
        ensures
            final(self).items() == old(self).items(),
            final(self).highlight() == moved(
                old(self).items().len() as int,
                old(self).highlight(),
                key,
                kind,
            ),
            choice@ == answer(old(self).items(), old(self).highlight(), key, kind),
    {
        proof {
            use_type_invariant(&*self);
        }
        match kind {
            KeyKind::Press => {},
            _ => {
                return Choice::Pending;
            },
        }
        let count: usize = self.items.len();
        match key {
            Key::Char(c) => {
                if c == 'q' {
                    Choice::Cancelled
                } else {
                    Choice::Pending
                }
            },
            Key::Esc => Choice::Cancelled,
            Key::Enter => Choice::Selected(self.items[self.highlighted].1.clone()),
            Key::Down => {
                if self.highlighted >= count - 1 {
                    self.highlighted = 0;
                } else {
                    self.highlighted = self.highlighted + 1;
                }
                Choice::Pending
            },
            Key::Up => {
                if self.highlighted == 0 {
                    self.highlighted = count - 1;
                } else {
                    self.highlighted = self.highlighted - 1;
                }
                Choice::Pending
            },
            Key::Other => Choice::Pending,
        }
    }
}

} // verus!
