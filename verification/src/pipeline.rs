use vstd::prelude::*;
use crate::json::json_string_at;
use crate::layout::{
    fragment_name_spec, joined, lemma_fragment_name_injective, lemma_fragment_name_no_sep,
    lemma_join_injective, page_name,
};
use crate::media::{fragment_plan, fragments_of, vimeo_json_path, MediaPlan};
use crate::sanitize::folder_spec;
use crate::urls::normalize_spec;

verus! {

/// One row of the source table: a raw web address and a display name.
pub struct SourceRow {
    pub web: Seq<char>,
    pub name: Seq<char>,
}

/// The content of one stored artifact, tagged by its kind. The layout gives
/// each kind its own filename shape, so one path never holds two kinds.
pub enum Artifact {
    /// The canonical address table.
    Table(Seq<SourceRow>),
    /// A mirrored page.
    Page(Seq<char>),
    /// A serialized media fragment.
    Fragment(Seq<char>),
    /// A downloaded media file.
    Media(Seq<u8>),
}

/// The artifact store: the directories made and the files written so far.
#[verifier::ext_equal]
pub struct Store {
    pub dirs: Set<Seq<char>>,
    pub files: Map<Seq<char>, Artifact>,
}

/// The network as the pipeline sees it: what fetching a URL returns, as text
/// and as bytes.
pub struct Network {
    pub text: spec_fn(Seq<char>) -> Seq<char>,
    pub data: spec_fn(Seq<char>) -> Seq<u8>,
}

/// One planned write. A file is only ever written where none exists: every
/// artifact is append-only, a re-run skips what is already present.
pub enum Step {
    MakeDir(Seq<char>),
    PutFile(Seq<char>, Artifact),
}

/// Applies one planned write: a directory is made, a file is written only if
/// its path is still free.
pub open spec fn put(s: Store, a: Step) -> Store {
    match a {
        Step::MakeDir(d) => Store { dirs: s.dirs.insert(d), files: s.files },
        Step::PutFile(k, c) => if s.files.contains_key(k) {
            s
        } else {
            Store { dirs: s.dirs, files: s.files.insert(k, c) }
        },
    }
}

/// Applies planned writes in order.
pub open spec fn puts(s: Store, steps: Seq<Step>) -> Store
    decreases steps.len(),
{
    if steps.len() == 0 {
        s
    } else {
        puts(put(s, steps[0]), steps.drop_first())
    }
}

/// The write's target already exists, so applying it changes nothing.
pub open spec fn step_done(s: Store, a: Step) -> bool {
    match a {
        Step::MakeDir(d) => s.dirs.contains(d),
        Step::PutFile(k, _) => s.files.contains_key(k),
    }
}

/// Every write's target already exists.
pub open spec fn all_done(s: Store, steps: Seq<Step>) -> bool {
    forall|i: int| 0 <= i < steps.len() ==> step_done(s, #[trigger] steps[i])
}

/// The store only grew: directories and files persist, and a file's content
/// never changes once written.
pub open spec fn grows(s: Store, t: Store) -> bool {
    (forall|d: Seq<char>| #[trigger] s.dirs.contains(d) ==> t.dirs.contains(d)) && (forall|
        k: Seq<char>,
    |
        #[trigger] s.files.contains_key(k) ==> t.files.contains_key(k) && t.files[k]
            == s.files[k])
}

pub proof fn lemma_put_grows(s: Store, a: Step)
    ensures
        grows(s, put(s, a)),
        step_done(put(s, a), a),
{
}

pub proof fn lemma_grows_trans(a: Store, b: Store, c: Store)
    requires
        grows(a, b),
        grows(b, c),
    ensures
        grows(a, c),
{
}

pub proof fn lemma_done_grows(s: Store, t: Store, a: Step)
    requires
        step_done(s, a),
        grows(s, t),
    ensures
        step_done(t, a),
{
}

pub proof fn lemma_puts_grows(s: Store, steps: Seq<Step>)
    ensures
        grows(s, puts(s, steps)),
    decreases steps.len(),
{
    if steps.len() == 0 {
    } else {
        lemma_put_grows(s, steps[0]);
        lemma_puts_grows(put(s, steps[0]), steps.drop_first());
        lemma_grows_trans(s, put(s, steps[0]), puts(s, steps));
    }
}

/// After the writes are applied, every one of their targets exists.
pub proof fn lemma_puts_all_done(s: Store, steps: Seq<Step>)
    ensures
        all_done(puts(s, steps), steps),
    decreases steps.len(),
{
    if steps.len() == 0 {
    } else {
        let s1 = put(s, steps[0]);
        lemma_put_grows(s, steps[0]);
        lemma_puts_all_done(s1, steps.drop_first());
        lemma_puts_grows(s1, steps.drop_first());
        lemma_done_grows(s1, puts(s, steps), steps[0]);
        assert forall|i: int| 0 <= i < steps.len() implies step_done(
            puts(s, steps),
            #[trigger] steps[i],
        ) by {
            if i > 0 {
                assert(steps[i] == steps.drop_first()[i - 1]);
            }
        }
    }
}

/// Every write's target persists in any later grown store.
pub proof fn lemma_all_done_grows(s: Store, t: Store, steps: Seq<Step>)
    requires
        all_done(s, steps),
        grows(s, t),
    ensures
        all_done(t, steps),
{
    assert forall|i: int| 0 <= i < steps.len() implies step_done(t, #[trigger] steps[i]) by {
        lemma_done_grows(s, t, steps[i]);
    }
}

/// Applying a write whose target exists changes nothing.
pub proof fn lemma_put_done_id(s: Store, a: Step)
    requires
        step_done(s, a),
    ensures
        put(s, a) == s,
{
    match a {
        Step::MakeDir(d) => {
            assert(s.dirs.insert(d) =~= s.dirs);
            assert(put(s, a) =~= s);
        },
        Step::PutFile(k, _) => {},
    }
}

/// Applying writes whose targets all exist changes nothing.
pub proof fn lemma_puts_done_id(s: Store, steps: Seq<Step>)
    requires
        all_done(s, steps),
    ensures
        puts(s, steps) == s,
    decreases steps.len(),
{
    if steps.len() == 0 {
    } else {
        lemma_put_done_id(s, steps[0]);
        assert forall|i: int| 0 <= i < steps.drop_first().len() implies step_done(
            s,
            #[trigger] steps.drop_first()[i],
        ) by {
            assert(steps.drop_first()[i] == steps[i + 1]);
        }
        lemma_puts_done_id(s, steps.drop_first());
    }
}

/// A file the writes created carries the content of the write that made it.
pub proof fn lemma_puts_new_file(s: Store, steps: Seq<Step>, k: Seq<char>)
    requires
        puts(s, steps).files.contains_key(k),
        !s.files.contains_key(k),
    ensures
        exists|i: int|
            0 <= i < steps.len() && steps[i] == Step::PutFile(k, puts(s, steps).files[k]),
    decreases steps.len(),
{
    let t = puts(s, steps);
    let s1 = put(s, steps[0]);
    if s1.files.contains_key(k) {
        let c = s1.files[k];
        lemma_puts_grows(s1, steps.drop_first());
        assert(t.files[k] == c);
        assert(steps[0] == Step::PutFile(k, c));
    } else {
        lemma_puts_new_file(s1, steps.drop_first(), k);
        let i = choose|i: int|
            0 <= i < steps.drop_first().len() && steps.drop_first()[i] == Step::PutFile(
                k,
                puts(s1, steps.drop_first()).files[k],
            );
        assert(steps[i + 1] == Step::PutFile(k, t.files[k]));
    }
}

// ---------------------------------------------------------------------------
// The layout's keys.
// ---------------------------------------------------------------------------

/// Where the canonical address table lives.
pub open spec fn crawler_key() -> Seq<char> {
    "resource/crawler.csv"@
}

/// The root of the output tree.
pub open spec fn root_dir() -> Seq<char> {
    "output"@
}

/// The directory of an institution, named after its sanitized display name.
pub open spec fn dir_key(name: Seq<char>) -> Seq<char> {
    joined(root_dir(), folder_spec(name))
}

/// The mirrored page of an institution.
pub open spec fn page_key(name: Seq<char>) -> Seq<char> {
    joined(dir_key(name), page_name())
}

/// The media fragment of an institution at a one-based position.
pub open spec fn frag_key(name: Seq<char>, i: nat) -> Seq<char> {
    joined(dir_key(name), fragment_name_spec(i))
}

/// A downloaded media file of an institution.
pub open spec fn media_key(name: Seq<char>, filename: Seq<char>) -> Seq<char> {
    joined(dir_key(name), filename)
}

// ---------------------------------------------------------------------------
// Projections of the store.
// ---------------------------------------------------------------------------

/// The address table stored at a path, if any.
pub open spec fn table_at(s: Store, k: Seq<char>) -> Option<Seq<SourceRow>> {
    if s.files.contains_key(k) {
        match s.files[k] {
            Artifact::Table(r) => Some(r),
            _ => None,
        }
    } else {
        None
    }
}

/// The page stored at a path, if any.
pub open spec fn page_at(s: Store, k: Seq<char>) -> Option<Seq<char>> {
    if s.files.contains_key(k) {
        match s.files[k] {
            Artifact::Page(p) => Some(p),
            _ => None,
        }
    } else {
        None
    }
}

/// The fragment stored at a path, if any.
pub open spec fn fragment_at(s: Store, k: Seq<char>) -> Option<Seq<char>> {
    if s.files.contains_key(k) {
        match s.files[k] {
            Artifact::Fragment(f) => Some(f),
            _ => None,
        }
    } else {
        None
    }
}

/// The write stores an address table.
pub open spec fn puts_table(a: Step) -> bool {
    match a {
        Step::PutFile(_, Artifact::Table(_)) => true,
        _ => false,
    }
}

/// The write stores a page.
pub open spec fn puts_page(a: Step) -> bool {
    match a {
        Step::PutFile(_, Artifact::Page(_)) => true,
        _ => false,
    }
}

/// The write stores a fragment.
pub open spec fn puts_fragment(a: Step) -> bool {
    match a {
        Step::PutFile(_, Artifact::Fragment(_)) => true,
        _ => false,
    }
}

/// Writes that store no address table leave every stored table as it was.
pub proof fn lemma_table_preserved(s: Store, steps: Seq<Step>, k: Seq<char>)
    requires
        forall|i: int| 0 <= i < steps.len() ==> !puts_table(#[trigger] steps[i]),
    ensures
        table_at(puts(s, steps), k) == table_at(s, k),
{
    let t = puts(s, steps);
    lemma_puts_grows(s, steps);
    if !s.files.contains_key(k) && t.files.contains_key(k) {
        lemma_puts_new_file(s, steps, k);
    }
}

/// Writes that store no page leave every stored page as it was.
pub proof fn lemma_page_preserved(s: Store, steps: Seq<Step>, k: Seq<char>)
    requires
        forall|i: int| 0 <= i < steps.len() ==> !puts_page(#[trigger] steps[i]),
    ensures
        page_at(puts(s, steps), k) == page_at(s, k),
{
    let t = puts(s, steps);
    lemma_puts_grows(s, steps);
    if !s.files.contains_key(k) && t.files.contains_key(k) {
        lemma_puts_new_file(s, steps, k);
    }
}

/// Writes that store no fragment leave every stored fragment as it was.
pub proof fn lemma_fragment_preserved(s: Store, steps: Seq<Step>, k: Seq<char>)
    requires
        forall|i: int| 0 <= i < steps.len() ==> !puts_fragment(#[trigger] steps[i]),
    ensures
        fragment_at(puts(s, steps), k) == fragment_at(s, k),
{
    let t = puts(s, steps);
    lemma_puts_grows(s, steps);
    if !s.files.contains_key(k) && t.files.contains_key(k) {
        lemma_puts_new_file(s, steps, k);
    }
}

// ---------------------------------------------------------------------------
// The four stages.
// ---------------------------------------------------------------------------

/// The rows the canonical address table keeps: each source row whose address
/// normalizes, with the normalized address, in source order.
pub open spec fn norm_rows(rows: Seq<SourceRow>) -> Seq<SourceRow>
    decreases rows.len(),
{
    if rows.len() == 0 {
        Seq::<SourceRow>::empty()
    } else {
        let rest = norm_rows(rows.drop_first());
        match normalize_spec(rows[0].web) {
            Some(u) => seq![SourceRow { web: u, name: rows[0].name }] + rest,
            None => rest,
        }
    }
}

/// The first stage writes the address table once; an existing table is kept
/// as a cache.
pub open spec fn table_steps(rows: Seq<SourceRow>) -> Seq<Step> {
    seq![Step::PutFile(crawler_key(), Artifact::Table(norm_rows(rows)))]
}

pub open spec fn stage_table(s: Store, rows: Seq<SourceRow>) -> Store {
    puts(s, table_steps(rows))
}

/// The rows the later stages walk: the stored address table, if any.
pub open spec fn stored_rows(s: Store) -> Seq<SourceRow> {
    match table_at(s, crawler_key()) {
        Some(r) => r,
        None => Seq::<SourceRow>::empty(),
    }
}

/// The second stage's writes for one row: the institution's directory, and
/// its page fetched from the row's address.
pub open spec fn mirror_row_steps(r: SourceRow, net: Network) -> Seq<Step> {
    match normalize_spec(r.web) {
        Some(u) => seq![
            Step::MakeDir(dir_key(r.name)),
            Step::PutFile(page_key(r.name), Artifact::Page((net.text)(u))),
        ],
        None => Seq::<Step>::empty(),
    }
}

pub open spec fn mirror_steps(rows: Seq<SourceRow>, net: Network) -> Seq<Step>
    decreases rows.len(),
{
    if rows.len() == 0 {
        Seq::<Step>::empty()
    } else {
        mirror_row_steps(rows[0], net) + mirror_steps(rows.drop_first(), net)
    }
}

pub open spec fn stage_mirror(s: Store, net: Network) -> Store {
    puts(s, mirror_steps(stored_rows(s), net))
}

/// The third stage's writes for one row: one fragment file per embedded-media
/// element of the stored page, in document order.
pub open spec fn frag_row_steps(s: Store, r: SourceRow) -> Seq<Step> {
    match page_at(s, page_key(r.name)) {
        Some(p) => Seq::new(
            fragments_of(p).len(),
            |i: int| Step::PutFile(frag_key(r.name, (i + 1) as nat), Artifact::Fragment(fragments_of(p)[i])),
        ),
        None => Seq::<Step>::empty(),
    }
}

pub open spec fn frag_steps(s: Store, rows: Seq<SourceRow>) -> Seq<Step>
    decreases rows.len(),
{
    if rows.len() == 0 {
        Seq::<Step>::empty()
    } else {
        frag_row_steps(s, rows[0]) + frag_steps(s, rows.drop_first())
    }
}

pub open spec fn stage_frag(s: Store) -> Store {
    puts(s, frag_steps(s, stored_rows(s)))
}

/// The fourth stage's write for one resolved fragment: the media file a
/// direct source or a provider config lookup yields; an unsupported embed, a
/// fragment without media, or a failed resolution writes nothing.
pub open spec fn media_plan_steps(name: Seq<char>, plan: MediaPlan, net: Network) -> Seq<Step> {
    match plan {
        MediaPlan::DirectVideo { url, filename } => seq![
            Step::PutFile(media_key(name, filename), Artifact::Media((net.data)(url))),
        ],
        MediaPlan::VimeoEmbed { id, config_url, filename } => match json_string_at(
            (net.text)(config_url),
            vimeo_json_path(),
        ) {
            Some(d) => seq![
                Step::PutFile(media_key(name, filename), Artifact::Media((net.data)(d))),
            ],
            None => Seq::<Step>::empty(),
        },
        _ => Seq::<Step>::empty(),
    }
}

pub open spec fn dl_frag_steps(s: Store, name: Seq<char>, i: nat, net: Network) -> Seq<Step> {
    match fragment_at(s, frag_key(name, i)) {
        Some(f) => media_plan_steps(name, fragment_plan(f), net),
        None => Seq::<Step>::empty(),
    }
}

pub open spec fn dl_row_upto(s: Store, name: Seq<char>, n: nat, net: Network) -> Seq<Step>
    decreases n,
{
    if n == 0 {
        Seq::<Step>::empty()
    } else {
        dl_row_upto(s, name, (n - 1) as nat, net) + dl_frag_steps(s, name, n, net)
    }
}

pub open spec fn dl_row_steps(s: Store, r: SourceRow, net: Network) -> Seq<Step> {
    match page_at(s, page_key(r.name)) {
        Some(p) => dl_row_upto(s, r.name, fragments_of(p).len(), net),
        None => Seq::<Step>::empty(),
    }
}

pub open spec fn dl_steps(s: Store, rows: Seq<SourceRow>, net: Network) -> Seq<Step>
    decreases rows.len(),
{
    if rows.len() == 0 {
        Seq::<Step>::empty()
    } else {
        dl_row_steps(s, rows[0], net) + dl_steps(s, rows.drop_first(), net)
    }
}

pub open spec fn stage_download(s: Store, net: Network) -> Store {
    puts(s, dl_steps(s, stored_rows(s), net))
}

/// The whole pipeline: address table, page mirror, fragment extraction, media
/// download, each a full pass.
pub open spec fn pipeline(s: Store, rows: Seq<SourceRow>, net: Network) -> Store {
    stage_download(stage_frag(stage_mirror(stage_table(s, rows), net)), net)
}

// ---------------------------------------------------------------------------
// What kinds each stage writes.
// ---------------------------------------------------------------------------

pub proof fn lemma_mirror_steps_kinds(rows: Seq<SourceRow>, net: Network)
    ensures
        forall|i: int|
            0 <= i < mirror_steps(rows, net).len() ==> !puts_table(
                #[trigger] mirror_steps(rows, net)[i],
            ) && !puts_fragment(mirror_steps(rows, net)[i]),
    decreases rows.len(),
{
    if rows.len() == 0 {
    } else {
        lemma_mirror_steps_kinds(rows.drop_first(), net);
        let head = mirror_row_steps(rows[0], net);
        assert forall|i: int| 0 <= i < mirror_steps(rows, net).len() implies !puts_table(
            #[trigger] mirror_steps(rows, net)[i],
        ) && !puts_fragment(mirror_steps(rows, net)[i]) by {
            if i < head.len() {
                assert(mirror_steps(rows, net)[i] == head[i]);
            } else {
                assert(mirror_steps(rows, net)[i] == mirror_steps(rows.drop_first(), net)[i
                    - head.len()]);
            }
        }
    }
}

pub proof fn lemma_frag_steps_kinds(s: Store, rows: Seq<SourceRow>)
    ensures
        forall|i: int|
            0 <= i < frag_steps(s, rows).len() ==> !puts_table(#[trigger] frag_steps(s, rows)[i])
                && !puts_page(frag_steps(s, rows)[i]),
    decreases rows.len(),
{
    if rows.len() == 0 {
    } else {
        lemma_frag_steps_kinds(s, rows.drop_first());
        let head = frag_row_steps(s, rows[0]);
        assert forall|i: int| 0 <= i < frag_steps(s, rows).len() implies !puts_table(
            #[trigger] frag_steps(s, rows)[i],
        ) && !puts_page(frag_steps(s, rows)[i]) by {
            if i < head.len() {
                assert(frag_steps(s, rows)[i] == head[i]);
            } else {
                assert(frag_steps(s, rows)[i] == frag_steps(s, rows.drop_first())[i - head.len()]);
            }
        }
    }
}

pub proof fn lemma_media_plan_steps_kinds(name: Seq<char>, plan: MediaPlan, net: Network)
    ensures
        forall|i: int|
            0 <= i < media_plan_steps(name, plan, net).len() ==> !puts_table(
                #[trigger] media_plan_steps(name, plan, net)[i],
            ) && !puts_page(media_plan_steps(name, plan, net)[i]) && !puts_fragment(
                media_plan_steps(name, plan, net)[i],
            ),
{
}

pub proof fn lemma_dl_row_upto_kinds(s: Store, name: Seq<char>, n: nat, net: Network)
    ensures
        forall|i: int|
            0 <= i < dl_row_upto(s, name, n, net).len() ==> !puts_table(
                #[trigger] dl_row_upto(s, name, n, net)[i],
            ) && !puts_page(dl_row_upto(s, name, n, net)[i]) && !puts_fragment(
                dl_row_upto(s, name, n, net)[i],
            ),
    decreases n,
{
    if n == 0 {
    } else {
        lemma_dl_row_upto_kinds(s, name, (n - 1) as nat, net);
        let head = dl_row_upto(s, name, (n - 1) as nat, net);
        let tail = dl_frag_steps(s, name, n, net);
        match fragment_at(s, frag_key(name, n)) {
            Some(f) => lemma_media_plan_steps_kinds(name, fragment_plan(f), net),
            None => {},
        }
        assert forall|i: int| 0 <= i < dl_row_upto(s, name, n, net).len() implies !puts_table(
            #[trigger] dl_row_upto(s, name, n, net)[i],
        ) && !puts_page(dl_row_upto(s, name, n, net)[i]) && !puts_fragment(
            dl_row_upto(s, name, n, net)[i],
        ) by {
            if i < head.len() {
                assert(dl_row_upto(s, name, n, net)[i] == head[i]);
            } else {
                assert(dl_row_upto(s, name, n, net)[i] == tail[i - head.len()]);
            }
        }
    }
}

pub proof fn lemma_dl_steps_kinds(s: Store, rows: Seq<SourceRow>, net: Network)
    ensures
        forall|i: int|
            0 <= i < dl_steps(s, rows, net).len() ==> !puts_table(
                #[trigger] dl_steps(s, rows, net)[i],
            ) && !puts_page(dl_steps(s, rows, net)[i]) && !puts_fragment(dl_steps(s, rows, net)[i]),
    decreases rows.len(),
{
    if rows.len() == 0 {
    } else {
        lemma_dl_steps_kinds(s, rows.drop_first(), net);
        let head = dl_row_steps(s, rows[0], net);
        match page_at(s, page_key(rows[0].name)) {
            Some(p) => lemma_dl_row_upto_kinds(s, rows[0].name, fragments_of(p).len(), net),
            None => {},
        }
        assert forall|i: int| 0 <= i < dl_steps(s, rows, net).len() implies !puts_table(
            #[trigger] dl_steps(s, rows, net)[i],
        ) && !puts_page(dl_steps(s, rows, net)[i]) && !puts_fragment(
            dl_steps(s, rows, net)[i],
        ) by {
            if i < head.len() {
                assert(dl_steps(s, rows, net)[i] == head[i]);
            } else {
                assert(dl_steps(s, rows, net)[i] == dl_steps(s, rows.drop_first(), net)[i
                    - head.len()]);
            }
        }
    }
}

// ---------------------------------------------------------------------------
// Each stage's writes depend only on what it reads.
// ---------------------------------------------------------------------------

/// Fragment planning reads only stored pages.
pub proof fn lemma_frag_steps_agree(s: Store, t: Store, rows: Seq<SourceRow>)
    requires
        forall|k: Seq<char>| #[trigger] page_at(s, k) == page_at(t, k),
    ensures
        frag_steps(s, rows) == frag_steps(t, rows),
    decreases rows.len(),
{
    if rows.len() == 0 {
    } else {
        assert(page_at(s, page_key(rows[0].name)) == page_at(t, page_key(rows[0].name)));
        lemma_frag_steps_agree(s, t, rows.drop_first());
    }
}

/// Download planning reads only stored pages and fragments.
pub proof fn lemma_dl_row_upto_agree(s: Store, t: Store, name: Seq<char>, n: nat, net: Network)
    requires
        forall|k: Seq<char>| #[trigger] fragment_at(s, k) == fragment_at(t, k),
    ensures
        dl_row_upto(s, name, n, net) == dl_row_upto(t, name, n, net),
    decreases n,
{
    if n == 0 {
    } else {
        lemma_dl_row_upto_agree(s, t, name, (n - 1) as nat, net);
        assert(fragment_at(s, frag_key(name, n)) == fragment_at(t, frag_key(name, n)));
    }
}

pub proof fn lemma_dl_steps_agree(s: Store, t: Store, rows: Seq<SourceRow>, net: Network)
    requires
        forall|k: Seq<char>| #[trigger] page_at(s, k) == page_at(t, k),
        forall|k: Seq<char>| #[trigger] fragment_at(s, k) == fragment_at(t, k),
    ensures
        dl_steps(s, rows, net) == dl_steps(t, rows, net),
    decreases rows.len(),
{
    if rows.len() == 0 {
    } else {
        assert(page_at(s, page_key(rows[0].name)) == page_at(t, page_key(rows[0].name)));
        match page_at(s, page_key(rows[0].name)) {
            Some(p) => lemma_dl_row_upto_agree(s, t, rows[0].name, fragments_of(p).len(), net),
            None => {},
        }
        lemma_dl_steps_agree(s, t, rows.drop_first(), net);
    }
}

// ---------------------------------------------------------------------------
// The shape of fragment writes.
// ---------------------------------------------------------------------------

/// The write stores fragment `j` (one-based) of the page stored for row `r`.
pub open spec fn frag_witness(s: Store, rows: Seq<SourceRow>, a: Step, r: int, j: nat) -> bool {
    &&& 0 <= r < rows.len()
    &&& 1 <= j
    &&& page_at(s, page_key(rows[r].name)) matches Some(p)
    &&& j <= fragments_of(p).len()
    &&& a == (Step::PutFile(frag_key(rows[r].name, j), Artifact::Fragment(fragments_of(p)[j - 1])))
}

/// The write stores a fragment of some row's stored page.
pub open spec fn frag_step_shape(s: Store, rows: Seq<SourceRow>, a: Step) -> bool {
    exists|r: int, j: nat| frag_witness(s, rows, a, r, j)
}

/// Every fragment-stage write stores a fragment of some row's stored page.
pub proof fn lemma_frag_steps_shape(s: Store, rows: Seq<SourceRow>)
    ensures
        forall|i: int|
            0 <= i < frag_steps(s, rows).len() ==> frag_step_shape(
                s,
                rows,
                #[trigger] frag_steps(s, rows)[i],
            ),
    decreases rows.len(),
{
    if rows.len() == 0 {
    } else {
        lemma_frag_steps_shape(s, rows.drop_first());
        let head = frag_row_steps(s, rows[0]);
        assert forall|i: int| 0 <= i < frag_steps(s, rows).len() implies frag_step_shape(
            s,
            rows,
            #[trigger] frag_steps(s, rows)[i],
        ) by {
            if i < head.len() {
                assert(frag_steps(s, rows)[i] == head[i]);
                assert(frag_witness(s, rows, head[i], 0, (i + 1) as nat));
            } else {
                let a = frag_steps(s, rows)[i];
                assert(a == frag_steps(s, rows.drop_first())[i - head.len()]);
                assert(frag_step_shape(s, rows.drop_first(), a));
                let (r, j) = choose|r: int, j: nat| frag_witness(s, rows.drop_first(), a, r, j);
                assert(rows.drop_first()[r] == rows[r + 1]);
                assert(frag_witness(s, rows, a, r + 1, j));
            }
        }
    }
}

/// Two fragment writes to the same path carry the same content: the path
/// pins the directory and the position, the directory pins the page, and the
/// page pins the fragment.
pub proof fn lemma_frag_steps_content(
    s: Store,
    rows: Seq<SourceRow>,
    i1: int,
    i2: int,
    k: Seq<char>,
    c1: Artifact,
    c2: Artifact,
)
    requires
        0 <= i1 < frag_steps(s, rows).len(),
        0 <= i2 < frag_steps(s, rows).len(),
        frag_steps(s, rows)[i1] == Step::PutFile(k, c1),
        frag_steps(s, rows)[i2] == Step::PutFile(k, c2),
    ensures
        c1 == c2,
{
    lemma_frag_steps_shape(s, rows);
    let a1 = frag_steps(s, rows)[i1];
    let a2 = frag_steps(s, rows)[i2];
    assert(frag_step_shape(s, rows, a1));
    assert(frag_step_shape(s, rows, a2));
    let (r1, j1) = choose|r: int, j: nat| frag_witness(s, rows, a1, r, j);
    let (r2, j2) = choose|r: int, j: nat| frag_witness(s, rows, a2, r, j);
    let n1 = rows[r1].name;
    let n2 = rows[r2].name;
    assert(frag_key(n1, j1) == frag_key(n2, j2));
    lemma_fragment_name_no_sep(j1);
    lemma_fragment_name_no_sep(j2);
    lemma_join_injective(
        dir_key(n1),
        fragment_name_spec(j1),
        dir_key(n2),
        fragment_name_spec(j2),
    );
    lemma_fragment_name_injective(j1, j2);
    assert(page_key(n1) == page_key(n2));
}

/// Applies writes where exactly one file, of known content, is missing:
/// everything else is skipped, and that one file is restored.
pub proof fn lemma_puts_one_missing(s: Store, steps: Seq<Step>, k: Seq<char>, c: Artifact)
    requires
        !s.files.contains_key(k),
        forall|i: int|
            0 <= i < steps.len() ==> step_done(s, #[trigger] steps[i]) || steps[i]
                == Step::PutFile(k, c),
        exists|i: int| 0 <= i < steps.len() && #[trigger] steps[i] == Step::PutFile(k, c),
    ensures
        puts(s, steps) == (Store { dirs: s.dirs, files: s.files.insert(k, c) }),
    decreases steps.len(),
{
    assert(steps.len() > 0);
    let rest = steps.drop_first();
    if steps[0] == Step::PutFile(k, c) {
        let s1 = put(s, steps[0]);
        assert(s1 == (Store { dirs: s.dirs, files: s.files.insert(k, c) }));
        assert forall|i: int| 0 <= i < rest.len() implies step_done(s1, #[trigger] rest[i]) by {
            assert(rest[i] == steps[i + 1]);
            if steps[i + 1] == Step::PutFile(k, c) {
                assert(s1.files.contains_key(k));
            } else {
                lemma_put_grows(s, steps[0]);
                lemma_done_grows(s, s1, steps[i + 1]);
            }
        }
        lemma_puts_done_id(s1, rest);
    } else {
        assert(step_done(s, steps[0]));
        lemma_put_done_id(s, steps[0]);
        let w = choose|i: int| 0 <= i < steps.len() && #[trigger] steps[i] == Step::PutFile(k, c);
        assert(w >= 1);
        assert(rest[w - 1] == Step::PutFile(k, c));
        assert forall|i: int| 0 <= i < rest.len() implies step_done(s, #[trigger] rest[i])
            || rest[i] == Step::PutFile(k, c) by {
            assert(rest[i] == steps[i + 1]);
        }
        lemma_puts_one_missing(s, rest, k, c);
    }
}

// ---------------------------------------------------------------------------
// Idempotence: a second run changes nothing.
// ---------------------------------------------------------------------------

/// Running the whole pipeline a second time over the store the first run
/// left, with the same rows and the same network, changes no artifact: every
/// write the second run plans — each page fetch's and media download's
/// target among them — finds its target already present and is skipped, so
/// the driver's existence check short-circuits every re-fetch.
pub proof fn lemma_pipeline_idempotent(s: Store, rows: Seq<SourceRow>, net: Network)
    ensures
        pipeline(pipeline(s, rows, net), rows, net) == pipeline(s, rows, net),
        all_done(
            pipeline(s, rows, net),
            mirror_steps(stored_rows(stage_table(s, rows)), net),
        ),
        all_done(
            pipeline(s, rows, net),
            dl_steps(
                stage_frag(stage_mirror(stage_table(s, rows), net)),
                stored_rows(stage_table(s, rows)),
                net,
            ),
        ),
{
    let s1 = stage_table(s, rows);
    let s2 = stage_mirror(s1, net);
    let s3 = stage_frag(s2);
    let s4 = stage_download(s3, net);
    let rn = stored_rows(s1);
    let msteps = mirror_steps(rn, net);
    let fsteps = frag_steps(s2, rn);
    let dsteps = dl_steps(s3, rn, net);

    lemma_puts_grows(s, table_steps(rows));
    lemma_puts_grows(s1, mirror_steps(stored_rows(s1), net));
    lemma_puts_grows(s2, frag_steps(s2, stored_rows(s2)));
    lemma_puts_grows(s3, dl_steps(s3, stored_rows(s3), net));
    lemma_grows_trans(s1, s2, s3);
    lemma_grows_trans(s1, s3, s4);
    lemma_grows_trans(s2, s3, s4);

    // The stored table never changes after the first stage.
    lemma_mirror_steps_kinds(stored_rows(s1), net);
    lemma_table_preserved(s1, mirror_steps(stored_rows(s1), net), crawler_key());
    assert(stored_rows(s2) == rn);
    lemma_frag_steps_kinds(s2, stored_rows(s2));
    lemma_table_preserved(s2, frag_steps(s2, stored_rows(s2)), crawler_key());
    assert(stored_rows(s3) == rn);
    lemma_dl_steps_kinds(s3, stored_rows(s3), net);
    lemma_table_preserved(s3, dl_steps(s3, stored_rows(s3), net), crawler_key());
    assert(stored_rows(s4) == rn);

    // Second run, first stage: the table file exists, nothing is written.
    lemma_puts_all_done(s, table_steps(rows));
    lemma_all_done_grows(s1, s4, table_steps(rows));
    lemma_puts_done_id(s4, table_steps(rows));
    assert(stage_table(s4, rows) == s4);

    // Second run, second stage: the same writes are planned and all exist.
    lemma_puts_all_done(s1, msteps);
    lemma_all_done_grows(s2, s4, msteps);
    lemma_puts_done_id(s4, msteps);
    assert(stage_mirror(s4, net) == s4);

    // Second run, third stage: pages are unchanged since the second stage, so
    // the same fragment writes are planned and all exist.
    assert forall|k: Seq<char>| #[trigger] page_at(s4, k) == page_at(s2, k) by {
        lemma_frag_steps_kinds(s2, stored_rows(s2));
        lemma_page_preserved(s2, frag_steps(s2, stored_rows(s2)), k);
        lemma_dl_steps_kinds(s3, stored_rows(s3), net);
        lemma_page_preserved(s3, dl_steps(s3, stored_rows(s3), net), k);
    }
    lemma_frag_steps_agree(s4, s2, rn);
    lemma_puts_all_done(s2, fsteps);
    lemma_all_done_grows(s3, s4, fsteps);
    lemma_puts_done_id(s4, fsteps);
    assert(stage_frag(s4) == s4);

    // Second run, fourth stage: pages and fragments are unchanged since the
    // third stage, so the same media writes are planned and all exist.
    assert forall|k: Seq<char>| #[trigger] page_at(s4, k) == page_at(s3, k) by {
        lemma_dl_steps_kinds(s3, stored_rows(s3), net);
        lemma_page_preserved(s3, dl_steps(s3, stored_rows(s3), net), k);
    }
    assert forall|k: Seq<char>| #[trigger] fragment_at(s4, k) == fragment_at(s3, k) by {
        lemma_dl_steps_kinds(s3, stored_rows(s3), net);
        lemma_fragment_preserved(s3, dl_steps(s3, stored_rows(s3), net), k);
    }
    lemma_dl_steps_agree(s4, s3, rn, net);
    lemma_puts_all_done(s3, dsteps);
    lemma_all_done_grows(s4, s4, dsteps);
    lemma_puts_done_id(s4, dsteps);
    assert(stage_download(s4, net) == s4);
}

// ---------------------------------------------------------------------------
// Resume safety: a deleted fragment is regenerated, nothing else is touched.
// ---------------------------------------------------------------------------

/// The store with one file deleted.
pub open spec fn without_file(s: Store, k: Seq<char>) -> Store {
    Store { dirs: s.dirs, files: s.files.remove(k) }
}

/// Deleting one fragment file the pipeline wrote, leaving the pages and the
/// directories intact, and re-running, regenerates exactly that fragment:
/// the store is again as the first run left it, and no other artifact is
/// touched on the way.
pub proof fn lemma_fragment_resume(s: Store, rows: Seq<SourceRow>, net: Network, k: Seq<char>)
    requires
        !s.files.contains_key(k),
        pipeline(s, rows, net).files.contains_key(k),
        pipeline(s, rows, net).files[k] matches Artifact::Fragment(_),
    ensures
        pipeline(without_file(pipeline(s, rows, net), k), rows, net) == pipeline(s, rows, net),
{
    let s1 = stage_table(s, rows);
    let s2 = stage_mirror(s1, net);
    let s3 = stage_frag(s2);
    let s4 = stage_download(s3, net);
    let rn = stored_rows(s1);
    let msteps = mirror_steps(rn, net);
    let fsteps = frag_steps(s2, rn);
    let dsteps = dl_steps(s3, rn, net);
    let t = without_file(s4, k);

    lemma_puts_grows(s, table_steps(rows));
    lemma_puts_grows(s1, mirror_steps(stored_rows(s1), net));
    lemma_puts_grows(s2, frag_steps(s2, stored_rows(s2)));
    lemma_puts_grows(s3, dl_steps(s3, stored_rows(s3), net));
    lemma_grows_trans(s1, s2, s3);
    lemma_grows_trans(s1, s3, s4);
    lemma_grows_trans(s2, s3, s4);

    // The stored table never changes after the first stage.
    lemma_mirror_steps_kinds(stored_rows(s1), net);
    lemma_table_preserved(s1, mirror_steps(stored_rows(s1), net), crawler_key());
    assert(stored_rows(s2) == rn);
    lemma_frag_steps_kinds(s2, stored_rows(s2));
    lemma_table_preserved(s2, frag_steps(s2, stored_rows(s2)), crawler_key());
    assert(stored_rows(s3) == rn);
    lemma_dl_steps_kinds(s3, stored_rows(s3), net);
    lemma_table_preserved(s3, dl_steps(s3, stored_rows(s3), net), crawler_key());
    assert(stored_rows(s4) == rn);

    // The deleted file was created by the fragment stage.
    if s1.files.contains_key(k) {
        lemma_puts_new_file(s, table_steps(rows), k);
        let i = choose|i: int|
            0 <= i < table_steps(rows).len() && table_steps(rows)[i] == Step::PutFile(
                k,
                s1.files[k],
            );
        assert(s1.files[k] == Artifact::Table(norm_rows(rows)));
        assert(s4.files[k] == s1.files[k]);
        assert(false);
    }
    if s2.files.contains_key(k) {
        lemma_puts_new_file(s1, msteps, k);
        let i = choose|i: int|
            0 <= i < msteps.len() && msteps[i] == Step::PutFile(k, s2.files[k]);
        assert(!puts_fragment(msteps[i]));
        assert(s4.files[k] == s2.files[k]);
        assert(false);
    }
    if !s3.files.contains_key(k) {
        lemma_puts_new_file(s3, dsteps, k);
        let i = choose|i: int|
            0 <= i < dsteps.len() && dsteps[i] == Step::PutFile(k, s4.files[k]);
        assert(!puts_fragment(dsteps[i]));
        assert(false);
    }
    lemma_puts_new_file(s2, fsteps, k);
    let wi = choose|i: int| 0 <= i < fsteps.len() && fsteps[i] == Step::PutFile(k, s3.files[k]);
    let c = s3.files[k];
    assert(s4.files[k] == c);

    // First stage of the re-run: the table file is not the deleted one.
    if s.files.contains_key(crawler_key()) {
        assert(crawler_key() != k);
    } else {
        lemma_puts_all_done(s, table_steps(rows));
        assert(s1.files.contains_key(crawler_key()));
        lemma_puts_new_file(s, table_steps(rows), crawler_key());
        let i = choose|i: int|
            0 <= i < table_steps(rows).len() && table_steps(rows)[i] == Step::PutFile(
                crawler_key(),
                s1.files[crawler_key()],
            );
        assert(s1.files[crawler_key()] == Artifact::Table(norm_rows(rows)));
        assert(s4.files[crawler_key()] == s1.files[crawler_key()]);
        assert(crawler_key() != k);
    }
    lemma_puts_all_done(s, table_steps(rows));
    assert(t.files.contains_key(crawler_key()));
    assert(all_done(t, table_steps(rows)));
    lemma_puts_done_id(t, table_steps(rows));
    assert(stage_table(t, rows) == t);
    assert(table_at(t, crawler_key()) == table_at(s4, crawler_key()));
    assert(stored_rows(t) == rn);

    // Second stage of the re-run: every target exists and none is the
    // deleted file, which the mirror pass never wrote.
    lemma_puts_all_done(s1, msteps);
    assert forall|i: int| 0 <= i < msteps.len() implies step_done(t, #[trigger] msteps[i]) by {
        assert(step_done(s2, msteps[i]));
        match msteps[i] {
            Step::MakeDir(d) => {
                assert(s4.dirs.contains(d));
            },
            Step::PutFile(kk, cc) => {
                assert(s2.files.contains_key(kk));
                assert(kk != k);
                assert(s4.files.contains_key(kk));
                assert(t.files.contains_key(kk));
            },
        }
    }
    lemma_puts_done_id(t, msteps);
    assert(stage_mirror(t, net) == t);

    // Third stage of the re-run: the same writes are planned, and exactly the
    // deleted fragment is missing; re-applying restores it with the same
    // content and skips everything else.
    assert forall|kk: Seq<char>| #[trigger] page_at(t, kk) == page_at(s2, kk) by {
        lemma_page_preserved(s2, frag_steps(s2, stored_rows(s2)), kk);
        lemma_page_preserved(s3, dl_steps(s3, stored_rows(s3), net), kk);
    }
    lemma_frag_steps_agree(t, s2, rn);
    assert(frag_steps(t, stored_rows(t)) == fsteps);
    lemma_puts_all_done(s2, fsteps);
    assert forall|i: int| 0 <= i < fsteps.len() implies step_done(t, #[trigger] fsteps[i])
        || fsteps[i] == Step::PutFile(k, c) by {
        assert(step_done(s3, fsteps[i]));
        match fsteps[i] {
            Step::MakeDir(d) => {
                assert(s4.dirs.contains(d));
            },
            Step::PutFile(kk, cc) => {
                if kk == k {
                    lemma_frag_steps_content(s2, rn, i, wi, k, cc, c);
                    assert(fsteps[i] == Step::PutFile(k, c));
                } else {
                    assert(s3.files.contains_key(kk));
                    assert(s4.files.contains_key(kk));
                    assert(t.files.contains_key(kk));
                }
            },
        }
    }
    assert(fsteps[wi] == Step::PutFile(k, c));
    lemma_puts_one_missing(t, fsteps, k, c);
    assert(t.files.insert(k, c) =~= s4.files);
    assert(stage_frag(t) =~= s4);

    // Fourth stage of the re-run: pages and fragments stand as after the
    // first run's third stage, so every planned media write exists.
    assert forall|kk: Seq<char>| #[trigger] page_at(s4, kk) == page_at(s3, kk) by {
        lemma_page_preserved(s3, dl_steps(s3, stored_rows(s3), net), kk);
    }
    assert forall|kk: Seq<char>| #[trigger] fragment_at(s4, kk) == fragment_at(s3, kk) by {
        lemma_fragment_preserved(s3, dl_steps(s3, stored_rows(s3), net), kk);
    }
    lemma_dl_steps_agree(s4, s3, rn, net);
    lemma_puts_all_done(s3, dsteps);
    lemma_all_done_grows(s4, s4, dsteps);
    lemma_puts_done_id(s4, dsteps);
    assert(stage_download(s4, net) == s4);
}

} // verus!
