//! Free-text notes.
use vstd::prelude::*;
use crate::support::{new_id, unix_now};

verus! {

/// A titled note.
#[derive(Debug, Clone)]
pub struct Note {
    pub id: String,
    pub title: String,
    pub content: String,
    pub created_at: i64,
    pub updated_at: i64,
}

impl Note {
    /// An empty note with the given id, created and updated at `now`.
    pub fn created(id: String, title: String, now: i64) -> (r: Note)
        ensures
            r.id@ == id@,
            r.title@ == title@,
            r.content@ == Seq::<char>::empty(),
            r.created_at == now,
            r.updated_at == now,
    {
        Note { id, title, content: String::new(), created_at: now, updated_at: now }
    }

    /// An empty note with a fresh id, created and updated now.
    pub fn new(title: String) -> (r: Note)
        ensures
            r.title@ == title@,
            r.content@ == Seq::<char>::empty(),
            r.created_at == r.updated_at,
            r.id@.len() == 36,
    {
        let now = unix_now();
        Note::created(new_id(), title, now)
    }

    /// Stamps the note as updated at `at`.
    pub fn touch(&mut self, at: i64)
        ensures
            final(self).id == old(self).id,
            final(self).title == old(self).title,
            final(self).content == old(self).content,
            final(self).created_at == old(self).created_at,
            final(self).updated_at == at,
    {
        self.updated_at = at;
    }

    /// Stamps the note as updated now.
    pub fn update_timestamp(&mut self)
        ensures
            final(self).id == old(self).id,
            final(self).title == old(self).title,
            final(self).content == old(self).content,
            final(self).created_at == old(self).created_at,
    {
        self.touch(unix_now());
    }

    /// Replaces the content and stamps the note as updated at `at`.
    pub fn set_content(&mut self, content: String, at: i64)
        ensures
            final(self).content@ == content@,
            final(self).id == old(self).id,
            final(self).title == old(self).title,
            final(self).created_at == old(self).created_at,
            final(self).updated_at == at,
    {
        self.content = content;
        self.touch(at);
    }

    /// Replaces the title and stamps the note as updated at `at`.
    pub fn set_title(&mut self, title: String, at: i64)
        ensures
            final(self).title@ == title@,
            final(self).id == old(self).id,
            final(self).content == old(self).content,
            final(self).created_at == old(self).created_at,
            final(self).updated_at == at,
    {
        self.title = title;
        self.touch(at);
    }

    /// Replaces the content and stamps the note as updated now.
    pub fn update_content(&mut self, content: String)
        ensures
            final(self).content@ == content@,
            final(self).id == old(self).id,
            final(self).title == old(self).title,
            final(self).created_at == old(self).created_at,
    {
        self.set_content(content, unix_now());
    }

    /// Replaces the title and stamps the note as updated now.
    pub fn update_title(&mut self, title: String)
        ensures
            final(self).title@ == title@,
            final(self).id == old(self).id,
            final(self).content == old(self).content,
            final(self).created_at == old(self).created_at,
    {
        self.set_title(title, unix_now());
    }
}

} // verus!
