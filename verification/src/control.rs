//! The live content of the site and the commands that an operator gives.
//!
//! The store holds one complete content at a time. A reload builds a new
//! content off to the side; only a new content that was built without error
//! takes the place of the live one, and it does so as a whole.

use vstd::prelude::*;
use std::collections::hash_map::RandomState;
use std::sync::Arc;
use crate::collection::{snapshot_posts, SourceFile};
use crate::routes::{DynamicContent, InitContentErr};
use crate::text::{chars_of, string_of, trim, trim_range};

verus! {

/// What an operator asks for.
#[derive(Debug)]
pub enum Command {
    /// Build the content anew and publish it.
    Reload,
    /// Shut the server down.
    Quit,
    /// Anything else; the text is the line as given, trimmed.
    Unknown(String),
}

/// A `Command` as a value.
pub enum CommandView {
    Reload,
    Quit,
    Unknown(Seq<char>),
}

impl View for Command {
    type V = CommandView;

    open spec fn view(&self) -> CommandView {
        match self {
            Command::Reload => CommandView::Reload,
            Command::Quit => CommandView::Quit,
            Command::Unknown(s) => CommandView::Unknown(s@),
        }
    }
}

/// The command that a line of input stands for. The line is trimmed; the
/// words `reload` and `quit` are commands as they are written here, in lower
/// case.
pub open spec fn command_of(line: Seq<char>) -> CommandView {
    let word = trim(line);
    if word == seq!['r', 'e', 'l', 'o', 'a', 'd'] {
        CommandView::Reload
    } else if word == seq!['q', 'u', 'i', 't'] {
        CommandView::Quit
    } else {
        CommandView::Unknown(word)
    }
}

impl Command {
    /// Reads a command from a line of input.
    pub fn parse(line: &str) -> (c: Command)
        ensures
            c@ == command_of(line@),
    {
        let v = chars_of(line);
        let (a, b) = trim_range(&v, 0, v.len());
        assert(v@.subrange(0, v.len() as int) == line@);
        let ghost word = v@.subrange(a as int, b as int);
        if b - a == 6 && v[a] == 'r' && v[a + 1] == 'e' && v[a + 2] == 'l' && v[a + 3] == 'o' && v[a
            + 4] == 'a' && v[a + 5] == 'd' {
            assert(word == seq!['r', 'e', 'l', 'o', 'a', 'd']);
            Command::Reload
        } else if b - a == 4 && v[a] == 'q' && v[a + 1] == 'u' && v[a + 2] == 'i' && v[a + 3]
            == 't' {
            assert(word == seq!['q', 'u', 'i', 't']);
            Command::Quit
        } else {
            proof {
                let reload = seq!['r', 'e', 'l', 'o', 'a', 'd'];
                let quit = seq!['q', 'u', 'i', 't'];
                if word == reload {
                    assert(word.len() == 6);
                    assert(word[0] == reload[0] && word[1] == reload[1] && word[2] == reload[2]
                        && word[3] == reload[3] && word[4] == reload[4] && word[5] == reload[5]);
                }
                if word == quit {
                    assert(word.len() == 4);
                    assert(word[0] == quit[0] && word[1] == quit[1] && word[2] == quit[2]
                        && word[3] == quit[3]);
                }
            }
            Command::Unknown(string_of(&v, a, b))
        }
    }
}

/// The content that the site serves at the moment.
pub struct ContentStore {
    live: Arc<DynamicContent>,
}

impl View for ContentStore {
    type V = DynamicContent;

    closed spec fn view(&self) -> DynamicContent {
        *self.live
    }
}

impl ContentStore {
    /// A store that serves `content`.
    pub fn new(content: DynamicContent) -> (store: ContentStore)
        ensures
            store@ == content,
    {
        ContentStore { live: Arc::new(content) }
    }

    /// The live content. What is handed out stays as it is, whatever is
    /// published afterwards.
    pub fn current(&self) -> (content: Arc<DynamicContent>)
        ensures
            *content == self@,
    {
        self.live.clone()
    }

    /// Puts `content` in the place of the live content.
    pub fn publish(&mut self, content: DynamicContent)
        ensures
            final(self)@ == content,
    {
        self.live = Arc::new(content);
    }

    /// Ends a reload. A content that was built is published; a failure to
    /// build one leaves the live content as it is and is handed back.
    pub fn reload(&mut self, built: Result<DynamicContent, InitContentErr>) -> (r: Result<
        (),
        InitContentErr,
    >)
        ensures
            match built {
                Ok(content) => r is Ok && final(self)@ == content,
                Err(e) => r == Err::<(), InitContentErr>(e) && final(self)@ == old(self)@,
            },
    {
        match built {
            Ok(content) => {
                self.publish(content);
                Ok(())
            },
            Err(e) => Err(e),
        }
    }
}

/// Reloads the site from what was read: the templates, or the error that
/// loading them gave, and the files of the posts folder. Where the templates
/// failed, or a file holds no post, or two posts share a slug, the live
/// content stays exactly as it was and the error is handed back. Else the
/// new content is live.
///
/// The store is held for as long as the content is built. Where readers
/// share the store, build with `DynamicContent::init` first and hand what it
/// gave to `ContentStore::reload`: then the store is held for the swap only.
pub fn rebuild_dynamic_content(
    store: &mut ContentStore,
    templates: Result<ramhorns::Ramhorns<RandomState>, ramhorns::Error>,
    files: &Vec<SourceFile>,
) -> (r: Result<(), InitContentErr>)
    ensures
        match templates {
            Err(e) => final(store)@ == old(store)@ && r == Err::<(), InitContentErr>(
                InitContentErr::Ramhorns(e),
            ),
            Ok(t) => match snapshot_posts(files@) {
                Err(e) => final(store)@ == old(store)@ && (r matches Err(InitContentErr::Post(f))
                    && f@ == e),
                Ok(posts) => r is Ok && final(store)@.ramhorns == t && final(store)@.posts@.posts
                    == posts && final(store)@.posts@.wf(),
            },
        },
{
    let built = DynamicContent::init(templates, files);
    store.reload(built)
}

} // verus!
