//! The files that a glTF file names.

use crate::codec::le_value;
use vstd::prelude::*;

verus! {

/// An image of a glTF file: whether it lies in a buffer, and the address under which it is found.
pub struct ImageSource {
    pub in_buffer: bool,
    pub uri: Option<String>,
}

/// Where the buffers and the images of a glTF file are found. A buffer without an address lies in
/// the file itself.
pub struct GltfSources {
    pub buffers: Vec<Option<String>>,
    pub images: Vec<ImageSource>,
}

pub struct ImageSourceView {
    pub in_buffer: bool,
    pub uri: Option<Seq<char>>,
}

pub struct SourcesView {
    pub buffers: Seq<Option<Seq<char>>>,
    pub images: Seq<ImageSourceView>,
}

/// The view of a text that may be missing.
pub open spec fn text_view(text: Option<String>) -> Option<Seq<char>> {
    match text {
        Some(text) => Some(text@),
        None => None,
    }
}

impl View for GltfSources {
    type V = SourcesView;

    open spec fn view(&self) -> SourcesView {
        SourcesView {
            buffers: Seq::new(self.buffers@.len(), |i: int| text_view(self.buffers@[i])),
            images: Seq::new(
                self.images@.len(),
                |i: int|
                    ImageSourceView {
                        in_buffer: self.images@[i].in_buffer,
                        uri: text_view(self.images@[i].uri),
                    },
            ),
        }
    }
}

/// The accessors that a document has, and for each primitive of each mesh the accessor that it takes
/// its positions from, if it names one.
pub struct PositionSources {
    pub accessors: usize,
    pub meshes: Vec<Vec<Option<usize>>>,
}

pub struct PositionsView {
    pub accessors: nat,
    pub meshes: Seq<Seq<Option<usize>>>,
}

impl View for PositionSources {
    type V = PositionsView;

    open spec fn view(&self) -> PositionsView {
        PositionsView {
            accessors: self.accessors as nat,
            meshes: Seq::new(self.meshes@.len(), |i: int| self.meshes@[i]@),
        }
    }
}

impl PositionsView {
    /// Whether a primitive takes its positions from an accessor that the document has, or names
    /// none.
    pub open spec fn has(self, position: Option<usize>) -> bool {
        match position {
            Some(accessor) => accessor < self.accessors,
            None => true,
        }
    }

    /// Whether all primitives of a mesh do.
    pub open spec fn has_all(self, mesh: Seq<Option<usize>>) -> bool {
        forall|j: int| 0 <= j < mesh.len() ==> self.has(#[trigger] mesh[j])
    }

    /// Whether all primitives of the document do.
    pub open spec fn in_range(self) -> bool {
        forall|i: int| 0 <= i < self.meshes.len() ==> self.has_all(#[trigger] self.meshes[i])
    }
}

/// What `gltf::Gltf::from_reader_without_validation` finds in the bytes of a file: its accessors and
/// where its primitives take their positions from, or nothing where the bytes are no glTF.
pub uninterp spec fn gltf_positions(data: Seq<u8>) -> Option<PositionsView>;

/// What `gltf::Gltf::from_reader` finds in the bytes of a file: the sources of its buffers and its
/// images, or nothing where the bytes are no valid glTF.
pub uninterp spec fn gltf_document(data: Seq<u8>) -> Option<SourcesView>;

/// A binary file of the second version announces its length: no less than the twelve bytes in which
/// it does so, and no more behind them than memory can hold.
pub open spec fn announces_its_length(data: Seq<u8>) -> bool {
    data.len() >= 12 && data.take(4) == seq![0x67u8, 0x6Cu8, 0x54u8, 0x46u8] && le_value(
        data.subrange(4, 8),
    ) == 2 ==> 12 <= le_value(data.subrange(8, 12)) <= isize::MAX + 12
}

/// Whether no primitive of a document takes its positions from an accessor that is not there.
pub open spec fn positions_in_range(data: Seq<u8>) -> bool {
    gltf_positions(data) matches Some(positions) ==> positions.in_range()
}

/// `gltf::Gltf::from_reader_without_validation`: reads the bytes of a glTF file, plain or binary,
/// without checking the document. Gives the number of its accessors and the accessors of its
/// positions, under the name `gltf_positions`.
#[verifier::external_body]
fn read_positions(data: &[u8]) -> (out: Option<PositionSources>)
    requires
        announces_its_length(data@),
    ensures
        match gltf_positions(data@) {
            Some(positions) => out is Some && out->Some_0@ == positions,
            None => out is None,
        },
{
    let gltf = gltf::Gltf::from_reader_without_validation(std::io::Cursor::new(data)).ok()?;
    let root = gltf.document.as_json();
    let key = gltf::json::validation::Checked::Valid(gltf::json::mesh::Semantic::Positions);
    Some(PositionSources {
        accessors: root.accessors.len(),
        meshes: root.meshes.iter().map(|mesh| {
            mesh.primitives.iter().map(|p| p.attributes.get(&key).map(|i| i.value())).collect()
        }).collect(),
    })
}

/// `gltf::Gltf::from_reader`: reads the bytes of a glTF file, plain or binary, and checks the
/// document, which ends in a panic where positions come from an accessor that is not there. Gives
/// the sources of the buffers and the images as the document has them, under the name
/// `gltf_document`, or the error in words, of which nothing is said.
#[verifier::external_body]
fn parse_gltf(data: &[u8]) -> (out: Result<GltfSources, String>)
    requires
        announces_its_length(data@),
        positions_in_range(data@),
    ensures
        match gltf_document(data@) {
            Some(sources) => out is Ok && out->Ok_0@ == sources,
            None => out is Err,
        },
{
    let gltf = gltf::Gltf::from_reader(std::io::Cursor::new(data)).map_err(|e| e.to_string())?;
    let root = gltf.document.as_json();
    Ok(GltfSources {
        buffers: root.buffers.iter().map(|b| b.uri.clone()).collect(),
        images: root.images.iter().map(|i| ImageSource {
            in_buffer: i.buffer_view.is_some(),
            uri: i.uri.clone(),
        }).collect(),
    })
}

/// Whether all primitives take their positions from accessors that are there.
pub fn check_positions(positions: &PositionSources) -> (out: bool)
    ensures
        out == positions@.in_range(),
{
    let ghost all = positions@;
    let mut i: usize = 0;
    while i < positions.meshes.len()
        invariant
            i <= positions.meshes@.len(),
            all == positions@,
            forall|k: int| 0 <= k < i ==> all.has_all(#[trigger] all.meshes[k]),
        decreases positions.meshes@.len() - i,
    {
        let mesh = &positions.meshes[i];
        let mut j: usize = 0;
        while j < mesh.len()
            invariant
                i < positions.meshes@.len(),
                all == positions@,
                mesh@ == all.meshes[i as int],
                j <= mesh@.len(),
                forall|k: int| 0 <= k < j ==> all.has(#[trigger] mesh@[k]),
            decreases mesh@.len() - j,
        {
            if let Some(accessor) = mesh[j] {
                if accessor >= positions.accessors {
                    proof {
                        assert(!all.has(mesh@[j as int]));
                        assert(!all.has_all(all.meshes[i as int]));
                    }
                    return false;
                }
            }
            j = j + 1;
        }
        i = i + 1;
    }
    true
}

/// Those of the first `n` buffers that lie outside.
pub open spec fn buffer_uris(buffers: Seq<Option<Seq<char>>>, n: int) -> Seq<Seq<char>>
    decreases n,
{
    if n <= 0 {
        Seq::empty()
    } else {
        match buffers[n - 1] {
            Some(uri) => buffer_uris(buffers, n - 1).push(uri),
            None => buffer_uris(buffers, n - 1),
        }
    }
}

/// Those of the first `n` images that lie outside.
pub open spec fn image_uris(images: Seq<ImageSourceView>, n: int) -> Seq<Seq<char>>
    decreases n,
{
    if n <= 0 {
        Seq::empty()
    } else if images[n - 1].in_buffer {
        image_uris(images, n - 1)
    } else {
        match images[n - 1].uri {
            Some(uri) => image_uris(images, n - 1).push(uri),
            None => image_uris(images, n - 1),
        }
    }
}

impl SourcesView {
    /// The addresses of all buffers and images that lie outside: buffers first.
    pub open spec fn uris(self) -> Seq<Seq<char>> {
        buffer_uris(self.buffers, self.buffers.len() as int) + image_uris(
            self.images,
            self.images.len() as int,
        )
    }
}

/// The characters of each text.
pub open spec fn text_list(list: Seq<String>) -> Seq<Seq<char>> {
    Seq::new(list.len(), |i: int| list[i]@)
}

/// The addresses of all buffers and images that lie outside.
pub fn external_uris(sources: &GltfSources) -> (out: Vec<String>)
    ensures
        text_list(out@) == sources@.uris(),
{
    let mut list: Vec<String> = Vec::new();
    let mut i: usize = 0;
    proof {
        assert(text_list(list@) =~= Seq::<Seq<char>>::empty());
    }
    while i < sources.buffers.len()
        invariant
            i <= sources.buffers@.len(),
            text_list(list@) == buffer_uris(sources@.buffers, i as int),
        decreases sources.buffers@.len() - i,
    {
        let ghost before = text_list(list@);
        if let Some(uri) = &sources.buffers[i] {
            list.push(uri.clone());
            proof {
                assert(text_list(list@) =~= before.push(uri@));
            }
        }
        i = i + 1;
    }
    let ghost first = text_list(list@);
    let mut i: usize = 0;
    proof {
        assert(first + Seq::<Seq<char>>::empty() =~= first);
    }
    while i < sources.images.len()
        invariant
            i <= sources.images@.len(),
            text_list(list@) == first + image_uris(sources@.images, i as int),
        decreases sources.images@.len() - i,
    {
        let ghost before = text_list(list@);
        let image = &sources.images[i];
        proof {
            assert(sources@.images[i as int].in_buffer == image.in_buffer);
        }
        if !image.in_buffer {
            if let Some(uri) = &image.uri {
                list.push(uri.clone());
                proof {
                    assert(text_list(list@) =~= before.push(uri@));
                    assert(before.push(uri@) =~= first + image_uris(
                        sources@.images,
                        i as int,
                    ).push(uri@));
                }
            }
        }
        i = i + 1;
    }
    list
}

/// Whether a binary file that announces its length announces one that it can have.
pub fn check_announced_length(data: &[u8]) -> (out: bool)
    ensures
        out == announces_its_length(data@),
{
    if data.len() < 12 {
        return true;
    }
    let is_binary = data[0] == 0x67 && data[1] == 0x6C && data[2] == 0x54 && data[3] == 0x46;
    let version = four_bytes(data, 4);
    let length = four_bytes(data, 8);
    proof {
        let front = data@.take(4);
        assert(front[0] == data@[0] && front[1] == data@[1] && front[2] == data@[2] && front[3]
            == data@[3]);
        if is_binary {
            assert(front =~= seq![0x67u8, 0x6Cu8, 0x54u8, 0x46u8]);
        }
    }
    !is_binary || version != 2 || (12 <= length && length - 12 <= isize::MAX as u64)
}

/// The number in four bytes, the lowest first.
fn four_bytes(data: &[u8], at: usize) -> (out: u64)
    requires
        at + 4 <= data@.len(),
    ensures
        out == le_value(data@.subrange(at as int, at + 4)),
        out <= u32::MAX,
{
    proof {
        let bytes = data@.subrange(at as int, at + 4);
        reveal_with_fuel(le_value, 5);
        assert(bytes[0] == data@[at as int]);
        assert(bytes.drop_first()[0] == data@[at + 1]);
        assert(bytes.drop_first().drop_first()[0] == data@[at + 2]);
        assert(bytes.drop_first().drop_first().drop_first()[0] == data@[at + 3]);
    }
    data[at] as u64 + data[at + 1] as u64 * 0x100 + data[at + 2] as u64 * 0x1_0000 + data[at
        + 3] as u64 * 0x100_0000
}

/// Why the files that a glTF file names are not known.
#[derive(PartialEq, Eq, Debug)]
pub enum GltfError {
    /// Positions come from an accessor that is not there.
    PositionOutOfRange,
    /// The file is no valid glTF, for a reason in words.
    Invalid(String),
}

/// The addresses of the files that a glTF file names, in the order of the document, or the reason
/// why it cannot be read.
pub fn gltf_uris(data: &[u8]) -> (out: Result<Vec<String>, GltfError>)
    requires
        announces_its_length(data@),
    ensures
        match out {
            Ok(uris) => {
                &&& positions_in_range(data@)
                &&& gltf_document(data@) matches Some(sources)
                &&& text_list(uris@) == sources.uris()
            },
            Err(GltfError::PositionOutOfRange) => !positions_in_range(data@),
            Err(GltfError::Invalid(_)) => positions_in_range(data@) && gltf_document(data@) is None,
        },
{
    if let Some(positions) = read_positions(data) {
        if !check_positions(&positions) {
            return Err(GltfError::PositionOutOfRange);
        }
    }
    match parse_gltf(data) {
        Ok(sources) => Ok(external_uris(&sources)),
        Err(reason) => Err(GltfError::Invalid(reason)),
    }
}

/// The addresses are those of the buffers that have one, in their order: `source` tells which each is of.
pub proof fn law_buffers_outside_are_named(buffers: Seq<Option<Seq<char>>>, n: int) -> (source: Seq<int>)
    requires
        0 <= n <= buffers.len(),
    ensures
        source.len() == buffer_uris(buffers, n).len(),
        forall|k: int|
            0 <= k < source.len() ==> 0 <= #[trigger] source[k] < n && buffers[source[k]] == Some(
                buffer_uris(buffers, n)[k],
            ),
        forall|k: int, l: int|
            0 <= k < l < source.len() ==> #[trigger] source[k] < #[trigger] source[l],
        forall|i: int| 0 <= i < n && (#[trigger] buffers[i]) is Some ==> source.contains(i),
    decreases n,
{
    if n == 0 {
        Seq::empty()
    } else {
        let sofar = law_buffers_outside_are_named(buffers, n - 1);
        if buffers[n - 1] is Some {
            let source = sofar.push(n - 1);
            assert forall|i: int| 0 <= i < n && (
            #[trigger] buffers[i]) is Some implies source.contains(i) by {
                if i < n - 1 {
                    let k = sofar.index_of(i);
                    assert(source[k] == i);
                } else {
                    assert(source[sofar.len() as int] == i);
                }
            }
            source
        } else {
            sofar
        }
    }
}

/// The addresses are those of the images that have one and lie in no buffer, in their order: `source` tells
/// which each is of.
pub proof fn law_images_outside_are_named(images: Seq<ImageSourceView>, n: int) -> (source: Seq<int>)
    requires
        0 <= n <= images.len(),
    ensures
        source.len() == image_uris(images, n).len(),
        forall|k: int|
            0 <= k < source.len() ==> {
                &&& 0 <= #[trigger] source[k] < n
                &&& !images[source[k]].in_buffer
                &&& images[source[k]].uri == Some(image_uris(images, n)[k])
            },
        forall|k: int, l: int|
            0 <= k < l < source.len() ==> #[trigger] source[k] < #[trigger] source[l],
        forall|i: int|
            0 <= i < n && !(#[trigger] images[i]).in_buffer && images[i].uri is Some
                ==> source.contains(i),
    decreases n,
{
    if n == 0 {
        Seq::empty()
    } else {
        let sofar = law_images_outside_are_named(images, n - 1);
        if !images[n - 1].in_buffer && images[n - 1].uri is Some {
            let source = sofar.push(n - 1);
            assert forall|i: int| 0 <= i < n && !(#[trigger] images[i]).in_buffer
                && images[i].uri is Some implies source.contains(i) by {
                if i < n - 1 {
                    let k = sofar.index_of(i);
                    assert(source[k] == i);
                } else {
                    assert(source[sofar.len() as int] == i);
                }
            }
            source
        } else {
            sofar
        }
    }
}

/// All buffers are named before all images, and nothing else is named.
pub proof fn law_buffers_are_named_before_images(sources: SourcesView)
    ensures
        ({
            let buffers = buffer_uris(sources.buffers, sources.buffers.len() as int);
            let images = image_uris(sources.images, sources.images.len() as int);
            &&& sources.uris().len() == buffers.len() + images.len()
            &&& sources.uris().take(buffers.len() as int) == buffers
            &&& sources.uris().skip(buffers.len() as int) == images
        }),
{
    let buffers = buffer_uris(sources.buffers, sources.buffers.len() as int);
    let images = image_uris(sources.images, sources.images.len() as int);
    assert(sources.uris().take(buffers.len() as int) =~= buffers);
    assert(sources.uris().skip(buffers.len() as int) =~= images);
}

/// Positions are out of range exactly where some primitive of some mesh names an accessor that is not there.
pub proof fn law_positions_come_from_what_is_there(positions: PositionsView)
    ensures
        !positions.in_range() <==> exists|i: int, j: int|
            #![trigger positions.meshes[i][j]]
            0 <= i < positions.meshes.len() && 0 <= j < positions.meshes[i].len()
                && positions.meshes[i][j] is Some && positions.meshes[i][j]->Some_0
                >= positions.accessors,
{
    if !positions.in_range() {
        let i = choose|i: int|
            0 <= i < positions.meshes.len() && !positions.has_all(#[trigger] positions.meshes[i]);
        let mesh = positions.meshes[i];
        let j = choose|j: int| 0 <= j < mesh.len() && !positions.has(#[trigger] mesh[j]);
        assert(positions.meshes[i][j] is Some);
    }
    if exists|i: int, j: int|
        #![trigger positions.meshes[i][j]]
        0 <= i < positions.meshes.len() && 0 <= j < positions.meshes[i].len()
            && positions.meshes[i][j] is Some && positions.meshes[i][j]->Some_0
            >= positions.accessors {
        let (i, j) = choose|i: int, j: int|
            #![trigger positions.meshes[i][j]]
            0 <= i < positions.meshes.len() && 0 <= j < positions.meshes[i].len()
                && positions.meshes[i][j] is Some && positions.meshes[i][j]->Some_0
                >= positions.accessors;
        assert(!positions.has(positions.meshes[i][j]));
        assert(!positions.has_all(positions.meshes[i]));
    }
}

/// Only what starts with `glTF` and a two has to announce a length: in its third word.
pub proof fn law_binary_files_announce_their_length(data: Seq<u8>)
    ensures
        !announces_its_length(data) <==> {
            &&& data.len() >= 12
            &&& data[0] == 0x67 && data[1] == 0x6C && data[2] == 0x54 && data[3] == 0x46
            &&& data[4] == 2 && data[5] == 0 && data[6] == 0 && data[7] == 0
            &&& {
                let length = data[8] + 0x100 * data[9] + 0x1_0000 * data[10] + 0x100_0000
                    * data[11];
                length < 12 || length - 12 > isize::MAX
            }
        },
{
    if data.len() >= 12 {
        let front = data.take(4);
        assert(front[0] == data[0] && front[1] == data[1] && front[2] == data[2] && front[3]
            == data[3]);
        if data[0] == 0x67 && data[1] == 0x6C && data[2] == 0x54 && data[3] == 0x46 {
            assert(front =~= seq![0x67u8, 0x6Cu8, 0x54u8, 0x46u8]);
        }
        lemma_four_bytes(data, 4);
        lemma_four_bytes(data, 8);
    }
}

proof fn lemma_four_bytes(data: Seq<u8>, at: int)
    requires
        0 <= at,
        at + 4 <= data.len(),
    ensures
        le_value(data.subrange(at, at + 4)) == data[at] + 0x100 * data[at + 1] + 0x1_0000 * data[at
            + 2] + 0x100_0000 * data[at + 3],
{
    let bytes = data.subrange(at, at + 4);
    reveal_with_fuel(le_value, 5);
    assert(bytes[0] == data[at]);
    assert(bytes.drop_first()[0] == data[at + 1]);
    assert(bytes.drop_first().drop_first()[0] == data[at + 2]);
    assert(bytes.drop_first().drop_first().drop_first()[0] == data[at + 3]);
}

} // verus!
