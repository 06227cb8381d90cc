use vstd::prelude::*;

verus! {

/// What this core sees of a live surface: the buffer a client committed since
/// the last upload, if any, and the buffer its texture holds.
#[derive(PartialEq, Eq, Structural, Clone, Copy, Debug)]
pub struct SurfaceEntry {
    pub committed: Option<u64>,
    pub texture: Option<u64>,
}

/// The entry after its upload: a new commit moves into the texture; without
/// one the entry is left as it is.
pub open spec fn uploaded(s: SurfaceEntry) -> SurfaceEntry {
    match s.committed {
        Some(b) => SurfaceEntry { committed: None, texture: Some(b) },
        None => s,
    }
}

/// The indices of the entries that hold a new commit, in order: one GPU upload each.
pub open spec fn upload_indices(s: Seq<SurfaceEntry>) -> Seq<usize>
    decreases s.len(),
{
    if s.len() == 0 {
        seq![]
    } else {
        let r = upload_indices(s.drop_last());
        if s.last().committed is Some {
            r.push((s.len() - 1) as usize)
        } else {
            r
        }
    }
}

/// The buffer-upload pass over this frame's snapshot of live surfaces: each
/// entry is visited once; those with a new commit get it in their texture and
/// are listed for upload, the others are left untouched.
pub fn process_frame(surfaces: &mut Vec<SurfaceEntry>) -> (uploads: Vec<usize>)
    ensures
        final(surfaces)@ == old(surfaces)@.map_values(|s: SurfaceEntry| uploaded(s)),
        uploads@ == upload_indices(old(surfaces)@),
{
    let ghost orig = surfaces@;
    let mut uploads: Vec<usize> = Vec::new();
    let mut i: usize = 0;
    while i < surfaces.len()
        invariant
            surfaces@.len() == orig.len(),
            i <= orig.len(),
            forall|j: int| 0 <= j < i ==> surfaces@[j] == uploaded(#[trigger] orig[j]),
            forall|j: int| i <= j < orig.len() ==> surfaces@[j] == orig[j],
            uploads@ == upload_indices(orig.subrange(0, i as int)),
        decreases orig.len() - i,
    {
        let e = surfaces[i];
        proof {
            assert(orig.subrange(0, i + 1).drop_last() =~= orig.subrange(0, i as int));
        }
        match e.committed {
            Some(b) => {
                surfaces.set(i, SurfaceEntry { committed: None, texture: Some(b) });
                uploads.push(i);
            },
            None => {},
        }
        i += 1;
    }
    proof {
        assert(orig.subrange(0, orig.len() as int) =~= orig);
        assert(surfaces@ =~= orig.map_values(|s: SurfaceEntry| uploaded(s)));
    }
    uploads
}

/// The frame-completion pass: every live surface, in order, is told that the
/// output finished presenting.
pub fn frame_targets(surfaces: &Vec<SurfaceEntry>) -> (r: Vec<usize>)
    ensures
        r@ == Seq::new(surfaces@.len(), |i: int| i as usize),
{
    let mut r: Vec<usize> = Vec::new();
    let mut i: usize = 0;
    while i < surfaces.len()
        invariant
            i <= surfaces@.len(),
            r@ == Seq::new(i as nat, |j: int| j as usize),
        decreases surfaces@.len() - i,
    {
        r.push(i);
        i += 1;
        proof {
            assert(r@ =~= Seq::new(i as nat, |j: int| j as usize));
        }
    }
    r
}

/// Without a new commit anywhere, the upload pass uploads nothing.
pub proof fn lemma_no_commit_no_upload(s: Seq<SurfaceEntry>)
    requires
        forall|i: int| 0 <= i < s.len() ==> (#[trigger] s[i]).committed is None,
    ensures
        upload_indices(s) == Seq::<usize>::empty(),
        s.map_values(|e: SurfaceEntry| uploaded(e)) == s,
    decreases s.len(),
{
    if s.len() > 0 {
        lemma_no_commit_no_upload(s.drop_last());
        assert(s.last() == s[s.len() - 1]);
    }
    assert(s.map_values(|e: SurfaceEntry| uploaded(e)) =~= s);
}

/// Running the upload pass a second time, with no commit in between, uploads
/// nothing and leaves every texture as the first pass left it.
pub proof fn lemma_process_idempotent(s: Seq<SurfaceEntry>)
    ensures
        ({
            let once = s.map_values(|e: SurfaceEntry| uploaded(e));
            &&& upload_indices(once) == Seq::<usize>::empty()
            &&& once.map_values(|e: SurfaceEntry| uploaded(e)) == once
        }),
{
    let once = s.map_values(|e: SurfaceEntry| uploaded(e));
    assert forall|i: int| 0 <= i < once.len() implies (#[trigger] once[i]).committed is None by {
        assert(once[i] == uploaded(s[i]));
    }
    lemma_no_commit_no_upload(once);
}

} // verus!
