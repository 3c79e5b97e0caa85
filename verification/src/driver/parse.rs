//! Reading podman's answers.
//!
//! Nothing here fails: what is not there, or not of the expected kind, is
//! absent.

use vstd::prelude::*;
use vstd::string::*;

use crate::driver;
use crate::driver::args;
use crate::driver::{BoxRow, BOX_ENV_LABEL, BOX_MARKER, BOX_NAME_LABEL};
use crate::json;
use crate::json::Json;
use crate::lists;
use crate::lists::merge_into;
use crate::text;
use crate::text::{ends_with, split_on, trim};
use crate::validate;
use crate::validate::is_valid_env_name;

verus! {

// ---------------------------------------------------------------------
// Inspection
// ---------------------------------------------------------------------

/// The member of an optional JSON value.
pub open spec fn child(j: Option<json::JsonView>, key: Seq<char>) -> Option<json::JsonView> {
    match j {
        Some(v) => json::member(v, key),
        None => None,
    }
}

/// The member of the configuration of the object that was inspected.
pub open spec fn config_member(v: json::JsonView, key: Seq<char>) -> Option<json::JsonView> {
    child(child(json::element(v, 0), "Config"@), key)
}

/// The label of the object that was inspected. Labels stand in its
/// configuration.
pub open spec fn label(v: json::JsonView, key: Seq<char>) -> Option<json::JsonView> {
    child(config_member(v, "Labels"@), key)
}

/// A text that is not empty.
pub open spec fn not_empty(o: Option<Seq<char>>) -> Option<Seq<char>> {
    match o {
        Some(s) => if s.len() > 0 {
            Some(s)
        } else {
            None
        },
        None => None,
    }
}

/// The state of the container that was inspected.
pub open spec fn state_of(v: json::JsonView) -> Option<Seq<char>> {
    json::opt_text_of(child(child(json::element(v, 0), "State"@), "Status"@))
}

/// The label that says that an image brings its own main command.
pub open spec fn cmd_label() -> Seq<char> {
    "com.github.simon3z.steelbx.box.cmd"@
}

/// The member of an optional JSON value.
fn get_child<'a>(j: Option<&'a Json>, key: &str) -> (r: Option<&'a Json>)
    ensures
        json::opt_json(r) == child(json::opt_json(j), key@),
{
    match j {
        Some(v) => v.get(key),
        None => None,
    }
}

/// The text of an optional JSON value, if it is a string.
fn get_text(j: Option<&Json>) -> (r: Option<String>)
    ensures
        text::opt_text(r) == json::opt_text_of(json::opt_json(j)),
{
    match j {
        Some(v) => match v.as_str() {
            Some(s) => Some(s.clone()),
            None => None,
        },
        None => None,
    }
}

/// The member of the configuration of the object that was inspected.
fn get_config_member<'a>(v: &'a Json, key: &str) -> (r: Option<&'a Json>)
    ensures
        json::opt_json(r) == config_member(v@, key@),
{
    get_child(get_child(v.at(0), "Config"), key)
}

/// The label of the object that was inspected.
fn get_label<'a>(v: &'a Json, key: &str) -> (r: Option<&'a Json>)
    ensures
        json::opt_json(r) == label(v@, key@),
{
    get_child(get_config_member(v, "Labels"), key)
}

/// The text, unless it is empty.
fn unless_empty(s: Option<String>) -> (r: Option<String>)
    ensures
        text::opt_text(r) == not_empty(text::opt_text(s)),
{
    match s {
        Some(t) => {
            if t.as_str().is_empty() {
                None
            } else {
                Some(t)
            }
        },
        None => None,
    }
}

/// The state of the container that was inspected.
pub fn state_from_inspect(v: &Json) -> (r: Option<String>)
    ensures
        text::opt_text(r) == state_of(v@),
{
    get_text(get_child(get_child(v.at(0), "State"), "Status"))
}

/// The value of the box marker. That the marker is there is what counts:
/// one whose value is no text has the empty text.
pub open spec fn marker_of(v: json::JsonView) -> Option<Seq<char>> {
    match label(v, driver::BOX_MARKER@) {
        None => None,
        Some(value) => Some(
            match json::text_of(value) {
                Some(s) => s,
                None => Seq::empty(),
            },
        ),
    }
}

/// The value of the box marker; a container without it is no box.
pub fn box_marker_from_inspect(v: &Json) -> (r: Option<String>)
    ensures
        text::opt_text(r) == marker_of(v@),
{
    match get_label(v, BOX_MARKER) {
        None => None,
        Some(value) => match value.as_str() {
            Some(s) => Some(s.clone()),
            None => {
                let none = String::new();
                proof {
                    assert(none@ == Seq::<char>::empty());
                }
                Some(none)
            },
        },
    }
}

/// The working directory that the image declares. An empty one is the same
/// as none.
pub fn workdir_from_image_inspect(v: &Json) -> (r: Option<String>)
    ensures
        text::opt_text(r) == not_empty(json::opt_text_of(config_member(v@, "WorkingDir"@))),
{
    unless_empty(get_text(get_config_member(v, "WorkingDir")))
}

/// Whether the image brings its own main command: its label is there,
/// whatever the value.
pub fn cmd_label_from_image_inspect(v: &Json) -> (r: bool)
    ensures
        r == (label(v@, cmd_label()) is Some),
{
    get_label(v, "com.github.simon3z.steelbx.box.cmd").is_some()
}

/// The name that the image declares for its boxes. An empty one is the
/// same as none.
pub fn name_label_from_image_inspect(v: &Json) -> (r: Option<String>)
    ensures
        text::opt_text(r) == not_empty(json::opt_text_of(label(v@, driver::BOX_NAME_LABEL@))),
{
    unless_empty(get_text(get_label(v, BOX_NAME_LABEL)))
}

/// The variable names among the pieces, without the white space around
/// them.
pub open spec fn names_among(pieces: Seq<Seq<char>>) -> Seq<Seq<char>>
    decreases pieces.len(),
{
    if pieces.len() == 0 {
        Seq::empty()
    } else {
        let front = names_among(pieces.drop_last());
        let name = text::trimmed(pieces.last());
        if validate::valid_env_name(name) {
            front.push(name)
        } else {
            front
        }
    }
}

/// The variable names that a label lists, separated by commas. What is no
/// variable name is dropped.
pub open spec fn label_names(value: Seq<char>) -> Seq<Seq<char>> {
    names_among(text::split(value, ','))
}

/// The runtime env names of the object that was inspected.
pub open spec fn inspected_names(v: json::JsonView) -> Seq<Seq<char>> {
    label_names(
        match json::opt_text_of(label(v, driver::BOX_ENV_LABEL@)) {
            Some(value) => value,
            None => Seq::empty(),
        },
    )
}

/// The variable names that a label lists.
pub fn env_names_from_label(value: &str) -> (r: Vec<String>)
    ensures
        text::texts(r@) == label_names(value@),
{
    let pieces = split_on(value, ',');
    let ghost all = text::texts(pieces@);
    let mut out: Vec<String> = Vec::new();
    let mut i: usize = 0;
    while i < pieces.len()
        invariant
            i <= pieces@.len(),
            all == text::texts(pieces@),
            text::texts(out@) == names_among(all.take(i as int)),
        decreases pieces.len() - i,
    {
        proof {
            assert(all.take(i + 1).drop_last() == all.take(i as int));
            assert(all.take(i + 1).last() == pieces@[i as int]@);
        }
        let name = trim(pieces[i].as_str());
        if is_valid_env_name(name.as_str()) {
            proof {
                text::lemma_texts_push(out@, name);
            }
            out.push(name);
        }
        i += 1;
    }
    proof {
        assert(all.take(i as int) == all);
    }
    out
}

/// The runtime env names of the image or container that was inspected.
pub fn env_names_from_inspect(v: &Json) -> (r: Vec<String>)
    ensures
        text::texts(r@) == inspected_names(v@),
{
    let value = match get_text(get_label(v, BOX_ENV_LABEL)) {
        Some(value) => value,
        None => String::new(),
    };
    env_names_from_label(value.as_str())
}

// ---------------------------------------------------------------------
// The list of containers
// ---------------------------------------------------------------------

/// A row of the list of boxes, as text.
#[verifier::ext_equal]
pub struct RowView {
    pub name: Seq<char>,
    pub state: Seq<char>,
    pub image: Seq<char>,
    pub created: Seq<char>,
}

impl View for BoxRow {
    type V = RowView;

    open spec fn view(&self) -> RowView {
        RowView {
            name: self.name@,
            state: self.state@,
            image: self.image@,
            created: self.created@,
        }
    }
}

/// The rows, as text.
pub open spec fn row_views(rows: Seq<BoxRow>) -> Seq<RowView> {
    rows.map_values(|r: BoxRow| r@)
}

/// The text of a member; empty if there is none.
pub open spec fn field(c: json::JsonView, key: Seq<char>) -> Seq<char> {
    match json::opt_text_of(json::member(c, key)) {
        Some(s) => s,
        None => Seq::empty(),
    }
}

/// The first of the names of a container in the list.
pub open spec fn first_name(c: json::JsonView) -> Option<Seq<char>> {
    match json::member(c, "Names"@) {
        Some(names) => json::opt_text_of(json::element(names, 0)),
        None => None,
    }
}

/// The name of a container in the list: the first of its names, or its one
/// name.
pub open spec fn container_name(c: json::JsonView) -> Option<Seq<char>> {
    match first_name(c) {
        Some(name) => Some(name),
        None => json::opt_text_of(json::member(c, "Name"@)),
    }
}

/// A container of the list carries the box marker, whatever its value.
pub open spec fn is_marked(c: json::JsonView) -> bool {
    child(json::member(c, "Labels"@), driver::BOX_MARKER@) is Some
}

/// The row of a container of the list, if it is a box.
pub open spec fn row_of(c: json::JsonView) -> Option<RowView> {
    match container_name(c) {
        None => None,
        Some(name) => if is_marked(c) {
            Some(
                RowView {
                    name,
                    state: field(c, "State"@),
                    image: field(c, "Image"@),
                    created: field(c, "CreatedAt"@),
                },
            )
        } else {
            None
        },
    }
}

/// The rows of the containers that are boxes.
pub open spec fn rows_of(containers: Seq<json::JsonView>) -> Seq<RowView>
    decreases containers.len(),
{
    if containers.len() == 0 {
        Seq::empty()
    } else {
        let front = rows_of(containers.drop_last());
        match row_of(containers.last()) {
            Some(row) => front.push(row),
            None => front,
        }
    }
}

/// The text of a member; empty if there is none (a podman that omits the
/// member leaves the column blank).
fn ps_str(c: &Json, key: &str) -> (r: String)
    ensures
        r@ == field(c@, key@),
{
    match get_text(c.get(key)) {
        Some(s) => s,
        None => String::new(),
    }
}

/// The row of a container of the list, if it is a box.
fn ps_row(c: &Json) -> (r: Option<BoxRow>)
    ensures
        match r {
            Some(row) => row_of(c@) == Some(row@),
            None => row_of(c@) is None,
        },
{
    let first = match c.get("Names") {
        Some(names) => get_text(names.at(0)),
        None => None,
    };
    let name = match first {
        Some(name) => name,
        None => match get_text(c.get("Name")) {
            Some(name) => name,
            None => return None,
        },
    };
    if get_child(c.get("Labels"), BOX_MARKER).is_none() {
        return None;
    }
    Some(
        BoxRow {
            name,
            state: ps_str(c, "State"),
            image: ps_str(c, "Image"),
            created: ps_str(c, "CreatedAt"),
        },
    )
}

/// The rows of the boxes in the list of containers.
pub fn ps_rows_from_json(v: &Json) -> (r: Vec<BoxRow>)
    ensures
        row_views(r@) == rows_of(json::elements(v@)),
{
    let ghost all = json::elements(v@);
    let n = v.len();
    let mut out: Vec<BoxRow> = Vec::new();
    let mut i: usize = 0;
    while i < n
        invariant
            i <= n,
            n == all.len(),
            all == json::elements(v@),
            row_views(out@) == rows_of(all.take(i as int)),
        decreases n - i,
    {
        proof {
            assert(all.take(i + 1).drop_last() == all.take(i as int));
            assert(all.take(i + 1).last() == all[i as int]);
        }
        if let Some(c) = v.at(i) {
            if let Some(row) = ps_row(c) {
                let ghost before = row_views(out@);
                out.push(row);
                proof {
                    assert(row_views(out@) == before.push(row@));
                }
            }
        }
        i += 1;
    }
    proof {
        assert(all.take(i as int) == all);
    }
    out
}

// ---------------------------------------------------------------------
// The list of images
// ---------------------------------------------------------------------

/// A reference that can be used: not empty, and with a tag.
pub open spec fn is_usable(reference: Seq<char>) -> bool {
    reference.len() > 0 && !text::ends(reference, ":<none>"@)
}

/// The usable references among the values.
pub open spec fn usable_among(items: Seq<json::JsonView>) -> Seq<Seq<char>>
    decreases items.len(),
{
    if items.len() == 0 {
        Seq::empty()
    } else {
        let front = usable_among(items.drop_last());
        match json::text_of(items.last()) {
            Some(s) => if is_usable(s) {
                front.push(s)
            } else {
                front
            },
            None => front,
        }
    }
}

/// The usable references under a key of an image.
pub open spec fn refs_under(c: json::JsonView, key: Seq<char>) -> Seq<Seq<char>> {
    match json::member(c, key) {
        Some(list) => usable_among(json::elements(list)),
        None => Seq::empty(),
    }
}

/// The keys that hold the references of an image, in the spellings of the
/// podman versions.
pub open spec fn ref_keys() -> Seq<Seq<char>> {
    seq!["repoTags"@, "repo_tags"@, "Names"@, "names"@, "Tags"@, "tags"@]
}

/// The usable references under the first of the keys that has some.
pub open spec fn first_refs(c: json::JsonView, keys: Seq<Seq<char>>) -> Seq<Seq<char>>
    decreases keys.len(),
{
    if keys.len() == 0 {
        Seq::empty()
    } else if refs_under(c, keys[0]).len() > 0 {
        refs_under(c, keys[0])
    } else {
        first_refs(c, keys.skip(1))
    }
}

/// The reference that the repository and the tag of an image make, if it
/// can be used.
pub open spec fn repo_tag(c: json::JsonView) -> Option<Seq<char>> {
    match (
        json::opt_text_of(json::member(c, "repository"@)),
        json::opt_text_of(json::member(c, "tag"@)),
    ) {
        (Some(r), Some(t)) => if t.len() > 0 && !text::ends(r, ":<none>"@) && is_usable(
            r + ":"@ + t,
        ) {
            Some(r + ":"@ + t)
        } else {
            None
        },
        _ => None,
    }
}

/// The references of an image: those in the first spelling that has some,
/// else the one that its repository and its tag make.
pub open spec fn image_refs(c: json::JsonView) -> Seq<Seq<char>> {
    let refs = first_refs(c, ref_keys());
    if refs.len() > 0 {
        refs
    } else {
        match repo_tag(c) {
            Some(r) => seq![r],
            None => Seq::empty(),
        }
    }
}

/// The references of the images, each once.
pub open spec fn all_refs(images: Seq<json::JsonView>) -> Seq<Seq<char>>
    decreases images.len(),
{
    if images.len() == 0 {
        Seq::empty()
    } else {
        lists::merged(all_refs(images.drop_last()), image_refs(images.last()))
    }
}

/// The usable references under a key of an image.
fn refs_from_key(c: &Json, key: &str) -> (r: Vec<String>)
    ensures
        text::texts(r@) == refs_under(c@, key@),
{
    let mut out: Vec<String> = Vec::new();
    if let Some(list) = c.get(key) {
        let ghost all = json::elements(list@);
        let n = list.len();
        let mut i: usize = 0;
        while i < n
            invariant
                i <= n,
                n == all.len(),
                all == json::elements(list@),
                text::texts(out@) == usable_among(all.take(i as int)),
            decreases n - i,
        {
            proof {
                assert(all.take(i + 1).drop_last() == all.take(i as int));
                assert(all.take(i + 1).last() == all[i as int]);
            }
            if let Some(item) = list.at(i) {
                if let Some(s) = item.as_str() {
                    if !s.as_str().is_empty() && !ends_with(s.as_str(), ":<none>") {
                        proof {
                            text::lemma_texts_push(out@, *s);
                        }
                        out.push(s.clone());
                    }
                }
            }
            i += 1;
        }
        proof {
            assert(all.take(i as int) == all);
        }
    }
    out
}

/// The usable references under the first of the keys that has some.
pub fn refs_from_keys(c: &Json) -> (r: Vec<String>)
    ensures
        text::texts(r@) == first_refs(c@, ref_keys()),
{
    let keys: [&str; 6] = ["repoTags", "repo_tags", "Names", "names", "Tags", "tags"];
    let ghost all = ref_keys();
    let mut i: usize = 0;
    proof {
        assert(all.skip(0) == all);
    }
    while i < 6
        invariant
            i <= 6,
            all == ref_keys(),
            all.len() == 6,
            keys@.len() == 6,
            forall|k: int| 0 <= k < 6 ==> (#[trigger] keys@[k])@ == all[k],
            first_refs(c@, all) == first_refs(c@, all.skip(i as int)),
        decreases 6 - i,
    {
        proof {
            assert(all.skip(i as int)[0] == keys@[i as int]@);
            assert(all.skip(i as int).skip(1) == all.skip(i + 1));
        }
        let refs = refs_from_key(c, keys[i]);
        if refs.len() > 0 {
            return refs;
        }
        i += 1;
    }
    let none: Vec<String> = Vec::new();
    proof {
        assert(text::texts(none@) == Seq::<Seq<char>>::empty());
    }
    none
}

/// The reference that the repository and the tag of an image make; an
/// image without a tag has none.
pub fn ref_from_repo_tag(c: &Json) -> (r: Option<String>)
    ensures
        text::opt_text(r) == repo_tag(c@),
{
    let repo = get_text(c.get("repository"));
    let tag = get_text(c.get("tag"));
    if let (Some(r), Some(t)) = (repo, tag) {
        let reference = r.clone().concat(":").concat(t.as_str());
        proof {
            reveal_strlit(":");
        }
        if !t.as_str().is_empty() && !ends_with(r.as_str(), ":<none>") && !ends_with(
            reference.as_str(),
            ":<none>",
        ) {
            return Some(reference);
        }
    }
    None
}

/// The references of the images in the list, each once.
pub fn image_refs_from_images_json(v: &Json) -> (r: Vec<String>)
    ensures
        text::texts(r@) == all_refs(json::elements(v@)),
{
    let ghost all = json::elements(v@);
    let n = v.len();
    let mut out: Vec<String> = Vec::new();
    let mut i: usize = 0;
    while i < n
        invariant
            i <= n,
            n == all.len(),
            all == json::elements(v@),
            text::texts(out@) == all_refs(all.take(i as int)),
        decreases n - i,
    {
        proof {
            assert(all.take(i + 1).drop_last() == all.take(i as int));
            assert(all.take(i + 1).last() == all[i as int]);
        }
        if let Some(c) = v.at(i) {
            let mut refs = refs_from_keys(c);
            if refs.len() == 0 {
                if let Some(r) = ref_from_repo_tag(c) {
                    proof {
                        text::lemma_texts_push(refs@, r);
                    }
                    refs.push(r);
                }
            }
            proof {
                assert(text::texts(refs@) == image_refs(c@));
            }
            merge_into(&mut out, &refs);
        }
        i += 1;
    }
    proof {
        assert(all.take(i as int) == all);
    }
    out
}

// ---------------------------------------------------------------------
// Laws
// ---------------------------------------------------------------------

proof fn lemma_names_among_valid(names: Seq<Seq<char>>)
    requires
        forall|i: int| 0 <= i < names.len() ==> validate::valid_env_name(#[trigger] names[i]),
    ensures
        names_among(names) == names,
    decreases names.len(),
{
    if names.len() > 0 {
        let front = names.drop_last();
        assert forall|i: int| 0 <= i < front.len() implies validate::valid_env_name(
            #[trigger] front[i],
        ) by {
            assert(front[i] == names[i]);
        }
        lemma_names_among_valid(front);
        let name = names[names.len() - 1];
        assert(validate::valid_env_name(name));
        assert(text::is_word(name[0]));
        assert(text::is_word(name[name.len() - 1]));
        text::lemma_trimmed_is(name);
        assert(front.push(names.last()) == names);
    }
}

/// The runtime env names that are written to a box as a label are the ones
/// that are read from it again.
pub proof fn law_env_label_reads_back(names: Seq<Seq<char>>)
    requires
        forall|i: int| 0 <= i < names.len() ==> validate::valid_env_name(#[trigger] names[i]),
    ensures
        label_names(args::env_label(names)) == names,
{
    reveal_strlit(",");
    assert(","@ == seq![',']);
    if names.len() == 0 {
        let nothing = args::env_label(names);
        assert(text::split(nothing, ',') == seq![nothing]);
        text::lemma_trimmed_is(nothing);
        let pieces = seq![nothing];
        assert(pieces.drop_last() == Seq::<Seq<char>>::empty());
        assert(names_among(pieces.drop_last()) == Seq::<Seq<char>>::empty());
        assert(names_among(pieces) == names);
    } else {
        assert forall|i: int| 0 <= i < names.len() implies !(#[trigger] names[i]).contains(
            ',',
        ) by {
            assert forall|j: int| 0 <= j < names[i].len() implies names[i][j] != ',' by {
                assert(text::is_word(names[i][j]));
            }
        }
        text::lemma_split_joined(names, ',');
        lemma_names_among_valid(names);
    }
}

/// What is read from a label are variable names, whatever the label holds.
pub proof fn law_label_names_are_valid(pieces: Seq<Seq<char>>, i: int)
    requires
        0 <= i < names_among(pieces).len(),
    ensures
        validate::valid_env_name(names_among(pieces)[i]),
    decreases pieces.len(),
{
    if pieces.len() > 0 && i < names_among(pieces.drop_last()).len() {
        law_label_names_are_valid(pieces.drop_last(), i);
    }
}

/// Every row of the list of boxes is that of a container that carries the
/// marker.
pub proof fn law_rows_are_boxes(containers: Seq<json::JsonView>, i: int)
    requires
        0 <= i < rows_of(containers).len(),
    ensures
        exists|k: int|
            0 <= k < containers.len() && is_marked(#[trigger] containers[k]) && row_of(
                containers[k],
            ) == Some(rows_of(containers)[i]),
    decreases containers.len(),
{
    if containers.len() > 0 {
        let front = containers.drop_last();
        if i < rows_of(front).len() {
            law_rows_are_boxes(front, i);
            let k = choose|k: int|
                0 <= k < front.len() && is_marked(#[trigger] front[k]) && row_of(front[k])
                    == Some(rows_of(front)[i]);
            assert(containers[k] == front[k]);
        } else {
            assert(is_marked(containers[containers.len() - 1]));
        }
    }
}

/// Every container that carries the marker and has a name has a row.
pub proof fn law_boxes_have_rows(containers: Seq<json::JsonView>, k: int)
    requires
        0 <= k < containers.len(),
        is_marked(containers[k]),
        container_name(containers[k]) is Some,
    ensures
        rows_of(containers).contains(row_of(containers[k])->Some_0),
    decreases containers.len(),
{
    let front = containers.drop_last();
    let row = row_of(containers[k])->Some_0;
    if k < front.len() {
        assert(front[k] == containers[k]);
        law_boxes_have_rows(front, k);
        let i = choose|i: int| 0 <= i < rows_of(front).len() && rows_of(front)[i] == row;
        assert(rows_of(containers)[i] == row);
    } else {
        assert(rows_of(containers)[rows_of(front).len() as int] == row);
    }
}

/// No reference is listed twice.
pub proof fn law_image_refs_are_unique(images: Seq<json::JsonView>)
    ensures
        all_refs(images).no_duplicates(),
    decreases images.len(),
{
    if images.len() > 0 {
        law_image_refs_are_unique(images.drop_last());
        lists::lemma_merged_is_unique(all_refs(images.drop_last()), image_refs(images.last()));
    }
}

proof fn lemma_first_refs_are_usable(c: json::JsonView, keys: Seq<Seq<char>>, i: int)
    requires
        0 <= i < first_refs(c, keys).len(),
    ensures
        is_usable(first_refs(c, keys)[i]),
    decreases keys.len(),
{
    if keys.len() > 0 {
        if refs_under(c, keys[0]).len() > 0 {
            if let Some(list) = json::member(c, keys[0]) {
                lemma_usable_among(json::elements(list), i);
            }
        } else {
            lemma_first_refs_are_usable(c, keys.skip(1), i);
        }
    }
}

proof fn lemma_usable_among(items: Seq<json::JsonView>, i: int)
    requires
        0 <= i < usable_among(items).len(),
    ensures
        is_usable(usable_among(items)[i]),
    decreases items.len(),
{
    if items.len() > 0 && i < usable_among(items.drop_last()).len() {
        lemma_usable_among(items.drop_last(), i);
    }
}

/// A reference is listed only if it can be used: an image without a tag is
/// never among them.
pub proof fn law_listed_refs_are_usable(images: Seq<json::JsonView>, reference: Seq<char>)
    requires
        all_refs(images).contains(reference),
    ensures
        is_usable(reference),
    decreases images.len(),
{
    if images.len() > 0 {
        let front = all_refs(images.drop_last());
        let c = images.last();
        lists::lemma_merged_members(front, image_refs(c), reference);
        if front.contains(reference) {
            law_listed_refs_are_usable(images.drop_last(), reference);
        } else {
            let i = choose|i: int|
                0 <= i < image_refs(c).len() && image_refs(c)[i] == reference;
            if first_refs(c, ref_keys()).len() > 0 {
                lemma_first_refs_are_usable(c, ref_keys(), i);
            }
        }
    }
}

/// The references of an image are those under the first key that has some:
/// the later keys, and the repository with the tag, then add nothing.
pub proof fn law_first_spelling_is_taken(c: json::JsonView, k: int)
    requires
        0 <= k < ref_keys().len(),
        refs_under(c, ref_keys()[k]).len() > 0,
        forall|j: int| 0 <= j < k ==> refs_under(c, #[trigger] ref_keys()[j]).len() == 0,
    ensures
        image_refs(c) == refs_under(c, ref_keys()[k]),
{
    lemma_first_refs_at(c, ref_keys(), k);
}

proof fn lemma_first_refs_at(c: json::JsonView, keys: Seq<Seq<char>>, k: int)
    requires
        0 <= k < keys.len(),
        refs_under(c, keys[k]).len() > 0,
        forall|j: int| 0 <= j < k ==> refs_under(c, #[trigger] keys[j]).len() == 0,
    ensures
        first_refs(c, keys) == refs_under(c, keys[k]),
    decreases keys.len(),
{
    if k > 0 {
        let rest = keys.skip(1);
        assert(refs_under(c, keys[0]).len() == 0);
        assert forall|j: int| 0 <= j < k - 1 implies refs_under(c, #[trigger] rest[j]).len()
            == 0 by {
            assert(rest[j] == keys[j + 1]);
        }
        assert(rest[k - 1] == keys[k]);
        lemma_first_refs_at(c, rest, k - 1);
    }
}

} // verus!
