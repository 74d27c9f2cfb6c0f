//! Local project drafts of the author dashboard: how stored rows read, how
//! drafts are created and updated, and how they follow Modrinth projects.
use vstd::prelude::*;
use crate::author::{AuthorProject, AuthorProjectPatch, NewAuthorProject, RemoteModrinthProject};
use crate::error::{AppError, AppResult};
use crate::text::{chars_of, lit, oview, str_eq, string_of, trim, trimmed};

verus! {

broadcast use vstd::string::group_string_axioms;

/// An optional text kept only when not empty.
pub open spec fn nonempty(o: Option<String>) -> Option<Seq<char>> {
    match o {
        Some(s) => if s@.len() > 0 {
            Some(s@)
        } else {
            None
        },
        None => None,
    }
}

fn keep_nonempty(o: Option<String>) -> (r: Option<String>)
    ensures
        oview(r) == nonempty(o),
{
    match o {
        Some(s) => if chars_of(s.as_str()).len() > 0 {
            Some(s)
        } else {
            None
        },
        None => None,
    }
}

/// A draft as stored; an empty Modrinth id or local path reads as none.
pub fn project_from_row(
    id: String,
    title: String,
    slug: Option<String>,
    summary: String,
    description: String,
    project_type: String,
    status: String,
    modrinth_id: Option<String>,
    local_path: Option<String>,
    created_at: String,
    updated_at: String,
) -> (p: AuthorProject)
    ensures
        p.id == id,
        p.title == title,
        p.slug == slug,
        p.summary == summary,
        p.description == description,
        p.project_type == project_type,
        p.status == status,
        oview(p.modrinth_id) == nonempty(modrinth_id),
        oview(p.local_path) == nonempty(local_path),
        p.created_at == created_at,
        p.updated_at == updated_at,
{
    AuthorProject {
        id,
        title,
        slug,
        summary,
        description,
        project_type,
        status,
        modrinth_id: keep_nonempty(modrinth_id),
        local_path: keep_nonempty(local_path),
        created_at,
        updated_at,
    }
}

/// The first draft satisfying `p`'s id test, if any.
pub open spec fn draft_with_id(ps: Seq<AuthorProject>, id: Seq<char>) -> Option<AuthorProject>
    decreases ps.len(),
{
    if ps.len() == 0 {
        None
    } else if ps[0].id@ == id {
        Some(ps[0])
    } else {
        draft_with_id(ps.drop_first(), id)
    }
}

/// The draft with id `id` among the stored ones.
pub fn get_project(projects: Vec<AuthorProject>, id: &str) -> (r: AppResult<AuthorProject>)
    ensures
        match draft_with_id(projects@, id@) {
            Some(p) => r == Ok::<AuthorProject, AppError>(p),
            None => r matches Err(e) && e.message@ == "Author project not found"@,
        },
{
    let mut ps = projects;
    let ghost all = ps@;
    let mut i: usize = 0;
    assert(all.skip(0) =~= all);
    while i < ps.len()
        invariant
            i <= ps.len(),
            ps@ == all,
            all == projects@,
            draft_with_id(all, id@) == draft_with_id(all.skip(i as int), id@),
        decreases ps.len() - i,
    {
        assert(all.skip(i as int)[0] == all[i as int]);
        assert(all.skip(i as int).drop_first() =~= all.skip(i + 1));
        if str_eq(ps[i].id.as_str(), id) {
            return Ok(ps.remove(i));
        }
        i += 1;
    }
    Err(AppError::lit("Author project not found"))
}

/// The first draft linked to Modrinth project `modrinth_id`, if any.
pub open spec fn draft_linked_to(ps: Seq<AuthorProject>, modrinth_id: Seq<char>) -> Option<AuthorProject>
    decreases ps.len(),
{
    if ps.len() == 0 {
        None
    } else if oview(ps[0].modrinth_id) == Some(modrinth_id) {
        Some(ps[0])
    } else {
        draft_linked_to(ps.drop_first(), modrinth_id)
    }
}

/// The draft already linked to a Modrinth project, which importing that
/// project returns instead of creating another.
pub fn find_linked(projects: Vec<AuthorProject>, modrinth_id: &str) -> (r: Option<AuthorProject>)
    ensures
        r == draft_linked_to(projects@, modrinth_id@),
{
    let mut ps = projects;
    let ghost all = ps@;
    let mut i: usize = 0;
    assert(all.skip(0) =~= all);
    while i < ps.len()
        invariant
            i <= ps.len(),
            ps@ == all,
            all == projects@,
            draft_linked_to(all, modrinth_id@) == draft_linked_to(all.skip(i as int), modrinth_id@),
        decreases ps.len() - i,
    {
        assert(all.skip(i as int)[0] == all[i as int]);
        assert(all.skip(i as int).drop_first() =~= all.skip(i + 1));
        let hit = match &ps[i].modrinth_id {
            Some(m) => str_eq(m.as_str(), modrinth_id),
            None => false,
        };
        if hit {
            return Some(ps.remove(i));
        }
        i += 1;
    }
    None
}

/// A new draft `id` created at `now`: the trimmed title, which is required;
/// the trimmed type (`mod` when none); the trimmed slug unless blank; empty
/// summary and description when none; status `draft`, not linked, no file.
pub fn new_project(new: NewAuthorProject, id: String, now: String) -> (r: AppResult<AuthorProject>)
    ensures
        trim(new.title@).len() == 0 ==> (r matches Err(e) && e.message@ == "Title is required"@),
        trim(new.title@).len() > 0 ==> (r matches Ok(p) && {
            &&& p.id == id
            &&& p.title@ == trim(new.title@)
            &&& oview(p.slug) == match new.slug {
                Some(s) => if trim(s@).len() > 0 {
                    Some(trim(s@))
                } else {
                    None
                },
                None => None,
            }
            &&& p.summary@ == match new.summary {
                Some(s) => s@,
                None => Seq::empty(),
            }
            &&& p.description@ == match new.description {
                Some(d) => d@,
                None => Seq::empty(),
            }
            &&& p.project_type@ == trim(match new.project_type {
                Some(t) => t@,
                None => "mod"@,
            })
            &&& p.status@ == "draft"@
            &&& p.modrinth_id is None
            &&& p.local_path is None
            &&& p.created_at@ == now@
            &&& p.updated_at@ == now@
        }),
{
    let title = trimmed(&chars_of(new.title.as_str()));
    if title.len() == 0 {
        return Err(AppError::lit("Title is required"));
    }
    let project_type = match &new.project_type {
        Some(t) => string_of(&trimmed(&chars_of(t.as_str()))),
        None => string_of(&trimmed(&chars_of("mod"))),
    };
    let slug = match &new.slug {
        Some(s) => {
            let t = trimmed(&chars_of(s.as_str()));
            if t.len() > 0 {
                Some(string_of(&t))
            } else {
                None
            }
        },
        None => None,
    };
    Ok(
        AuthorProject {
            id,
            title: string_of(&title),
            slug,
            summary: match new.summary {
                Some(s) => s,
                None => String::new(),
            },
            description: match new.description {
                Some(d) => d,
                None => String::new(),
            },
            project_type,
            status: lit("draft"),
            modrinth_id: None,
            local_path: None,
            created_at: now.clone(),
            updated_at: now,
        },
    )
}

/// The statuses a draft can be given.
pub open spec fn known_status(s: Seq<char>) -> bool {
    s == "draft"@ || s == "checklist"@ || s == "published"@
}

/// `current` updated by `patch` at time `now`: a given title is trimmed and
/// must not be blank; a blank slug, Modrinth id or local path clears it; an
/// unknown status is ignored; other given fields replace the current ones.
pub fn update_project(current: AuthorProject, patch: AuthorProjectPatch, now: String) -> (r: AppResult<AuthorProject>)
    ensures
        (patch.title matches Some(t) && trim(t@).len() == 0) ==> (r matches Err(e) && e.message@
            == "Title is required"@),
        !(patch.title matches Some(t) && trim(t@).len() == 0) ==> (r matches Ok(p) && {
            &&& p.id == current.id
            &&& p.title@ == match patch.title {
                Some(t) => trim(t@),
                None => current.title@,
            }
            &&& p.slug == match patch.slug {
                Some(s) => if trim(s@).len() > 0 {
                    Some(s)
                } else {
                    None
                },
                None => current.slug,
            }
            &&& p.summary == match patch.summary {
                Some(s) => s,
                None => current.summary,
            }
            &&& p.description == match patch.description {
                Some(d) => d,
                None => current.description,
            }
            &&& p.project_type == match patch.project_type {
                Some(t) => t,
                None => current.project_type,
            }
            &&& p.status == match patch.status {
                Some(s) => if known_status(s@) {
                    s
                } else {
                    current.status
                },
                None => current.status,
            }
            &&& oview(p.modrinth_id) == match patch.modrinth_id {
                Some(m) => nonempty(Some(m)),
                None => oview(current.modrinth_id),
            }
            &&& oview(p.local_path) == match patch.local_path {
                Some(l) => nonempty(Some(l)),
                None => oview(current.local_path),
            }
            &&& p.created_at == current.created_at
            &&& p.updated_at == now
        }),
{
    let title = match &patch.title {
        Some(t) => {
            let tt = trimmed(&chars_of(t.as_str()));
            if tt.len() == 0 {
                return Err(AppError::lit("Title is required"));
            }
            string_of(&tt)
        },
        None => current.title,
    };
    let slug = match patch.slug {
        Some(s) => if trimmed(&chars_of(s.as_str())).len() > 0 {
            Some(s)
        } else {
            None
        },
        None => current.slug,
    };
    let status = match patch.status {
        Some(s) => if str_eq(s.as_str(), "draft") || str_eq(s.as_str(), "checklist") || str_eq(
            s.as_str(),
            "published",
        ) {
            s
        } else {
            current.status
        },
        None => current.status,
    };
    let modrinth_id = match patch.modrinth_id {
        Some(m) => keep_nonempty(Some(m)),
        None => current.modrinth_id,
    };
    let local_path = match patch.local_path {
        Some(l) => keep_nonempty(Some(l)),
        None => current.local_path,
    };
    Ok(
        AuthorProject {
            id: current.id,
            title,
            slug,
            summary: match patch.summary {
                Some(s) => s,
                None => current.summary,
            },
            description: match patch.description {
                Some(d) => d,
                None => current.description,
            },
            project_type: match patch.project_type {
                Some(t) => t,
                None => current.project_type,
            },
            status,
            modrinth_id,
            local_path,
            created_at: current.created_at,
            updated_at: now,
        },
    )
}

/// Deleting a draft that was not stored is refused.
pub fn check_deleted(rows_affected: u64) -> (r: AppResult<()>)
    ensures
        r is Ok <==> rows_affected > 0,
        r matches Err(e) ==> e.message@ == "Author project not found"@,
{
    if rows_affected == 0 {
        return Err(AppError::lit("Author project not found"));
    }
    Ok(())
}

/// The patch that links a draft to a Modrinth project: its title, slug,
/// description as summary and type, status `checklist`, and its id.
pub fn link_patch(remote: &RemoteModrinthProject) -> (r: AuthorProjectPatch)
    ensures
        r.title == Some(remote.title),
        r.slug == Some(remote.slug),
        r.summary == Some(remote.description),
        r.description is None,
        r.project_type == Some(remote.project_type),
        oview(r.status) == Some("checklist"@),
        r.modrinth_id == Some(remote.id),
        r.local_path is None,
{
    AuthorProjectPatch {
        title: Some(remote.title.clone()),
        slug: Some(remote.slug.clone()),
        summary: Some(remote.description.clone()),
        description: None,
        project_type: Some(remote.project_type.clone()),
        status: Some(lit("checklist")),
        modrinth_id: Some(remote.id.clone()),
        local_path: None,
    }
}

/// The draft an imported Modrinth project starts as.
pub fn imported_draft(remote: &RemoteModrinthProject) -> (r: NewAuthorProject)
    ensures
        r.title == remote.title,
        r.slug == Some(remote.slug),
        r.summary == Some(remote.description),
        oview(r.description) == Some(Seq::<char>::empty()),
        r.project_type == Some(remote.project_type),
{
    NewAuthorProject {
        title: remote.title.clone(),
        slug: Some(remote.slug.clone()),
        summary: Some(remote.description.clone()),
        description: Some(String::new()),
        project_type: Some(remote.project_type.clone()),
    }
}

/// The patch that marks an imported draft as linked to its project.
pub fn imported_patch(remote: &RemoteModrinthProject) -> (r: AuthorProjectPatch)
    ensures
        r.title is None,
        r.slug is None,
        r.summary is None,
        r.description is None,
        r.project_type is None,
        oview(r.status) == Some("checklist"@),
        r.modrinth_id == Some(remote.id),
        r.local_path is None,
{
    AuthorProjectPatch {
        title: None,
        slug: None,
        summary: None,
        description: None,
        project_type: None,
        status: Some(lit("checklist")),
        modrinth_id: Some(remote.id.clone()),
        local_path: None,
    }
}

} // verus!
