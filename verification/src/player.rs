//! Who performed an action, and who should receive a message.

use vstd::prelude::*;

use crate::networking::protocol::ClientId;
use crate::util::{push_char, u64_decimal};
use crate::world::WorldId;

verus! {

/// Mathematical model of a [`Source`].
pub enum SourceView {
    Player { id: ClientId, world: Option<Seq<char>> },
    System,
    Unknown,
}

/// The executor of an action: a player (with the world they are in, if
/// any), the system itself, or unknown/anonymous.
#[derive(Debug)]
pub enum Source {
    Player(ClientId, Option<WorldId>),
    System,
    Unknown,
}

impl View for Source {
    type V = SourceView;

    open spec fn view(&self) -> SourceView {
        match self {
            Source::Player(id, Some(w)) => SourceView::Player { id: *id, world: Some(w@) },
            Source::Player(id, None) => SourceView::Player { id: *id, world: None },
            Source::System => SourceView::System,
            Source::Unknown => SourceView::Unknown,
        }
    }
}

impl Clone for Source {
    fn clone(&self) -> (r: Self)
        ensures
            r@ == self@,
    {
        match self {
            Source::Player(id, Some(w)) => Source::Player(*id, Some(w.clone())),
            Source::Player(id, None) => Source::Player(*id, None),
            Source::System => Source::System,
            Source::Unknown => Source::Unknown,
        }
    }
}

/// The console tag of a source: the player's connection id (and world,
/// if any) in lightweight markup, nothing for the system, a placeholder
/// for an anonymous source.
pub open spec fn source_text_spec(s: SourceView) -> Seq<char> {
    match s {
        SourceView::Player { id, world } => {
            let head = seq!['%', 'p', '{'] + u64_decimal(id.0) + seq!['}'];
            match world {
                Some(w) => head + seq![' ', '[', 'i', 'n', ' ', '%', 'w', '{'] + w + seq![
                    '}',
                    ']',
                ],
                None => head,
            }
        },
        SourceView::System => Seq::empty(),
        SourceView::Unknown => seq!['(', 'a', 'n', 'o', 'n', 'y', 'm', 'o', 'u', 's', ')'],
    }
}

impl Source {
    /// The console tag of this source; see [`source_text_spec`].
    pub fn text(&self) -> (r: String)
        ensures
            r@ == source_text_spec(self@),
    {
        let mut out = String::new();
        match self {
            Source::Player(id, world) => {
                push_char(&mut out, '%');
                push_char(&mut out, 'p');
                push_char(&mut out, '{');
                crate::util::push_u64_decimal(&mut out, id.0);
                push_char(&mut out, '}');
                match world {
                    Some(w) => {
                        push_char(&mut out, ' ');
                        push_char(&mut out, '[');
                        push_char(&mut out, 'i');
                        push_char(&mut out, 'n');
                        push_char(&mut out, ' ');
                        push_char(&mut out, '%');
                        push_char(&mut out, 'w');
                        push_char(&mut out, '{');
                        out.append(w.0.as_str());
                        push_char(&mut out, '}');
                        push_char(&mut out, ']');
                        proof {
                            assert(out@ =~= source_text_spec(self@));
                        }
                    },
                    None => {
                        proof {
                            assert(out@ =~= source_text_spec(self@));
                        }
                    },
                }
            },
            Source::System => {
                proof {
                    assert(out@ =~= source_text_spec(self@));
                }
            },
            Source::Unknown => {
                push_char(&mut out, '(');
                push_char(&mut out, 'a');
                push_char(&mut out, 'n');
                push_char(&mut out, 'o');
                push_char(&mut out, 'n');
                push_char(&mut out, 'y');
                push_char(&mut out, 'm');
                push_char(&mut out, 'o');
                push_char(&mut out, 'u');
                push_char(&mut out, 's');
                push_char(&mut out, ')');
                proof {
                    assert(out@ =~= source_text_spec(self@));
                }
            },
        }
        out
    }
}

/// Mathematical model of a [`Target`].
pub enum TargetView {
    Player(ClientId),
    Players(Seq<ClientId>),
    World,
    All,
}

/// The recipients of a message: one player, an explicit list, the whole
/// world, or the whole server.
#[derive(Debug)]
pub enum Target {
    Player(ClientId),
    Players(Vec<ClientId>),
    World,
    All,
}

impl View for Target {
    type V = TargetView;

    open spec fn view(&self) -> TargetView {
        match self {
            Target::Player(id) => TargetView::Player(*id),
            Target::Players(ids) => TargetView::Players(ids@),
            Target::World => TargetView::World,
            Target::All => TargetView::All,
        }
    }
}

impl Clone for Target {
    fn clone(&self) -> (r: Self)
        ensures
            r@ == self@,
    {
        match self {
            Target::Player(id) => Target::Player(*id),
            Target::Players(ids) => {
                let mut out: Vec<ClientId> = Vec::new();
                let n = ids.len();
                let mut i: usize = 0;
                while i < n
                    invariant
                        n == ids@.len(),
                        i <= n,
                        out@ =~= ids@.take(i as int),
                    decreases n - i,
                {
                    out.push(ids[i]);
                    proof {
                        assert(out@ =~= ids@.take(i + 1));
                    }
                    i += 1;
                }
                proof {
                    assert(ids@.take(n as int) =~= ids@);
                }
                Target::Players(out)
            },
            Target::World => Target::World,
            Target::All => Target::All,
        }
    }
}

} // verus!
