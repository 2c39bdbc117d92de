//! The protocol's message shapes: four request kinds and the four matching
//! response kinds, each carrying one payload struct, plus the constructor
//! helpers that assemble well-formed messages from primitive arguments.

use vstd::prelude::*;

verus! {

/// Encryption configuration attached to a stored file: the key material, the
/// nonce and the additional authenticated data, as the key-management service
/// hands them out. This layer only carries the value; it never interprets it.
#[derive(Debug, PartialEq)]
pub struct AeadConfig {
    pub key: Vec<u8>,
    pub nonce: Vec<u8>,
    pub ad: Vec<u8>,
}

/// Mathematical model of an [`AeadConfig`].
pub struct AeadConfigView {
    pub key: Seq<u8>,
    pub nonce: Seq<u8>,
    pub ad: Seq<u8>,
}

impl View for AeadConfig {
    type V = AeadConfigView;

    open spec fn view(&self) -> AeadConfigView {
        AeadConfigView { key: self.key@, nonce: self.nonce@, ad: self.ad@ }
    }
}

#[derive(Debug, PartialEq)]
pub struct CreateFileRequest {
    pub file_name: String,
    pub sha256: String,
    pub file_size: u32,
    pub user_id: String,
    pub user_token: String,
}

/// Mathematical model of a [`CreateFileRequest`].
pub struct CreateFileRequestView {
    pub file_name: Seq<char>,
    pub sha256: Seq<char>,
    pub file_size: u32,
    pub user_id: Seq<char>,
    pub user_token: Seq<char>,
}

impl View for CreateFileRequest {
    type V = CreateFileRequestView;

    open spec fn view(&self) -> CreateFileRequestView {
        CreateFileRequestView {
            file_name: self.file_name@,
            sha256: self.sha256@,
            file_size: self.file_size,
            user_id: self.user_id@,
            user_token: self.user_token@,
        }
    }
}

#[derive(Debug, PartialEq)]
pub struct CreateFileResponse {
    pub file_id: String,
    pub access_path: String,
    pub key_config: AeadConfig,
}

/// Mathematical model of a [`CreateFileResponse`].
pub struct CreateFileResponseView {
    pub file_id: Seq<char>,
    pub access_path: Seq<char>,
    pub key_config: AeadConfigView,
}

impl View for CreateFileResponse {
    type V = CreateFileResponseView;

    open spec fn view(&self) -> CreateFileResponseView {
        CreateFileResponseView {
            file_id: self.file_id@,
            access_path: self.access_path@,
            key_config: self.key_config@,
        }
    }
}

#[derive(Debug, PartialEq)]
pub struct GetFileRequest {
    pub file_id: String,
    pub user_id: String,
    pub user_token: String,
}

/// Mathematical model of a [`GetFileRequest`].
pub struct GetFileRequestView {
    pub file_id: Seq<char>,
    pub user_id: Seq<char>,
    pub user_token: Seq<char>,
}

impl View for GetFileRequest {
    type V = GetFileRequestView;

    open spec fn view(&self) -> GetFileRequestView {
        GetFileRequestView {
            file_id: self.file_id@,
            user_id: self.user_id@,
            user_token: self.user_token@,
        }
    }
}

#[derive(Debug, PartialEq)]
pub struct GetFileResponse {
    pub file_info: FileInfo,
}

/// Mathematical model of a [`GetFileResponse`].
pub struct GetFileResponseView {
    pub file_info: FileInfoView,
}

impl View for GetFileResponse {
    type V = GetFileResponseView;

    open spec fn view(&self) -> GetFileResponseView {
        GetFileResponseView { file_info: self.file_info@ }
    }
}

#[derive(Debug, PartialEq)]
pub struct DeleteFileRequest {
    pub file_id: String,
    pub user_id: String,
    pub user_token: String,
}

/// Mathematical model of a [`DeleteFileRequest`].
pub struct DeleteFileRequestView {
    pub file_id: Seq<char>,
    pub user_id: Seq<char>,
    pub user_token: Seq<char>,
}

impl View for DeleteFileRequest {
    type V = DeleteFileRequestView;

    open spec fn view(&self) -> DeleteFileRequestView {
        DeleteFileRequestView {
            file_id: self.file_id@,
            user_id: self.user_id@,
            user_token: self.user_token@,
        }
    }
}

#[derive(Debug, PartialEq)]
pub struct DeleteFileResponse {
    pub file_info: FileInfo,
}

/// Mathematical model of a [`DeleteFileResponse`].
pub struct DeleteFileResponseView {
    pub file_info: FileInfoView,
}

impl View for DeleteFileResponse {
    type V = DeleteFileResponseView;

    open spec fn view(&self) -> DeleteFileResponseView {
        DeleteFileResponseView { file_info: self.file_info@ }
    }
}

/// The server's record of one stored file. `task_id` is present only when a
/// processing task is associated with the file.
#[derive(Debug, PartialEq)]
pub struct FileInfo {
    pub user_id: String,
    pub file_name: String,
    pub sha256: String,
    pub file_size: u32,
    pub access_path: String,
    pub task_id: Option<String>,
    pub collaborator_list: Vec<String>,
    pub key_config: AeadConfig,
}

/// Mathematical model of a [`FileInfo`].
pub struct FileInfoView {
    pub user_id: Seq<char>,
    pub file_name: Seq<char>,
    pub sha256: Seq<char>,
    pub file_size: u32,
    pub access_path: Seq<char>,
    pub task_id: Option<Seq<char>>,
    pub collaborator_list: Seq<Seq<char>>,
    pub key_config: AeadConfigView,
}

impl View for FileInfo {
    type V = FileInfoView;

    open spec fn view(&self) -> FileInfoView {
        FileInfoView {
            user_id: self.user_id@,
            file_name: self.file_name@,
            sha256: self.sha256@,
            file_size: self.file_size,
            access_path: self.access_path@,
            task_id: match self.task_id {
                Some(t) => Some(t@),
                None => None,
            },
            collaborator_list: self.collaborator_list.deep_view(),
            key_config: self.key_config@,
        }
    }
}

#[derive(Debug, PartialEq)]
pub struct ListFileRequest {
    pub user_id: String,
    pub user_token: String,
}

/// Mathematical model of a [`ListFileRequest`].
pub struct ListFileRequestView {
    pub user_id: Seq<char>,
    pub user_token: Seq<char>,
}

impl View for ListFileRequest {
    type V = ListFileRequestView;

    open spec fn view(&self) -> ListFileRequestView {
        ListFileRequestView { user_id: self.user_id@, user_token: self.user_token@ }
    }
}

#[derive(Debug, PartialEq)]
pub struct ListFileResponse {
    pub list: Vec<String>,
}

/// Mathematical model of a [`ListFileResponse`].
pub struct ListFileResponseView {
    pub list: Seq<Seq<char>>,
}

impl View for ListFileResponse {
    type V = ListFileResponseView;

    open spec fn view(&self) -> ListFileResponseView {
        ListFileResponseView { list: self.list.deep_view() }
    }
}

/// A request to the file service: one of the four operations the protocol
/// knows. The set is closed; every request kind has exactly one response kind.
#[derive(Debug, PartialEq)]
pub enum DFSRequest {
    Create(CreateFileRequest),
    Get(GetFileRequest),
    List(ListFileRequest),
    Delete(DeleteFileRequest),
}

/// Mathematical model of a [`DFSRequest`].
pub enum DFSRequestView {
    Create(CreateFileRequestView),
    Get(GetFileRequestView),
    List(ListFileRequestView),
    Delete(DeleteFileRequestView),
}

impl View for DFSRequest {
    type V = DFSRequestView;

    open spec fn view(&self) -> DFSRequestView {
        match self {
            DFSRequest::Create(p) => DFSRequestView::Create(p@),
            DFSRequest::Get(p) => DFSRequestView::Get(p@),
            DFSRequest::List(p) => DFSRequestView::List(p@),
            DFSRequest::Delete(p) => DFSRequestView::Delete(p@),
        }
    }
}

/// A response from the file service, mirroring [`DFSRequest`] variant by
/// variant.
#[derive(Debug, PartialEq)]
pub enum DFSResponse {
    Create(CreateFileResponse),
    Get(GetFileResponse),
    List(ListFileResponse),
    Delete(DeleteFileResponse),
}

/// Mathematical model of a [`DFSResponse`].
pub enum DFSResponseView {
    Create(CreateFileResponseView),
    Get(GetFileResponseView),
    List(ListFileResponseView),
    Delete(DeleteFileResponseView),
}

impl View for DFSResponse {
    type V = DFSResponseView;

    open spec fn view(&self) -> DFSResponseView {
        match self {
            DFSResponse::Create(p) => DFSResponseView::Create(p@),
            DFSResponse::Get(p) => DFSResponseView::Get(p@),
            DFSResponse::List(p) => DFSResponseView::List(p@),
            DFSResponse::Delete(p) => DFSResponseView::Delete(p@),
        }
    }
}

/// Why a wire text was rejected by the decoder.
#[derive(Clone, Copy, Debug, PartialEq, Eq, Structural)]
pub enum DecodeError {
    /// The text ends before the message does.
    Truncated,
    /// The text does not follow the wire grammar.
    Malformed,
    /// A number in the text does not fit the field it stands in.
    Overflow,
    /// The message's tag names none of the four known operations.
    UnknownTag,
}

fn clone_bytes(v: &Vec<u8>) -> (r: Vec<u8>)
    ensures
        r@ == v@,
{
    let mut r: Vec<u8> = Vec::new();
    let mut i: usize = 0;
    while i < v.len()
        invariant
            i <= v.len(),
            r@ == v@.take(i as int),
        decreases v.len() - i,
    {
        r.push(v[i]);
        proof {
            assert(v@.take(i + 1 as int) =~= v@.take(i as int).push(v@[i as int]));
        }
        i += 1;
    }
    proof {
        assert(v@.take(v@.len() as int) =~= v@);
    }
    r
}

fn clone_strings(v: &Vec<String>) -> (r: Vec<String>)
    ensures
        r.deep_view() == v.deep_view(),
{
    let mut r: Vec<String> = Vec::new();
    let mut i: usize = 0;
    while i < v.len()
        invariant
            i <= v.len(),
            r@.len() == i,
            forall|k: int| 0 <= k < i ==> r@[k]@ == v@[k]@,
        decreases v.len() - i,
    {
        r.push(v[i].clone());
        i += 1;
    }
    proof {
        assert(r.deep_view() =~= v.deep_view());
    }
    r
}

impl Clone for AeadConfig {
    /// A clone carries the same key, nonce and additional data.
    fn clone(&self) -> (r: Self)
        ensures
            r@ == self@,
    {
        AeadConfig {
            key: clone_bytes(&self.key),
            nonce: clone_bytes(&self.nonce),
            ad: clone_bytes(&self.ad),
        }
    }
}

impl Clone for FileInfo {
    /// A clone carries the same value in every field.
    fn clone(&self) -> (r: Self)
        ensures
            r@ == self@,
    {
        FileInfo {
            user_id: self.user_id.clone(),
            file_name: self.file_name.clone(),
            sha256: self.sha256.clone(),
            file_size: self.file_size,
            access_path: self.access_path.clone(),
            task_id: match &self.task_id {
                Some(t) => Some(t.clone()),
                None => None,
            },
            collaborator_list: clone_strings(&self.collaborator_list),
            key_config: self.key_config.clone(),
        }
    }
}

impl DFSRequest {
    /// Assembles the request that asks the service to store a new file.
    /// Pure data assembly: every argument is copied verbatim into the message.
    pub fn new_create_file(
        file_name: &str,
        sha256: &str,
        file_size: u32,
        user_id: &str,
        user_token: &str,
    ) -> (r: DFSRequest)
        ensures
            r@ == (DFSRequestView::Create(CreateFileRequestView {
                file_name: file_name@,
                sha256: sha256@,
                file_size: file_size,
                user_id: user_id@,
                user_token: user_token@,
            })),
    {
        DFSRequest::Create(CreateFileRequest {
            file_name: file_name.to_owned(),
            sha256: sha256.to_owned(),
            file_size,
            user_id: user_id.to_owned(),
            user_token: user_token.to_owned(),
        })
    }

    /// Assembles the request that asks for one stored file.
    pub fn new_get_file(file_id: &str, user_id: &str, user_token: &str) -> (r: DFSRequest)
        ensures
            r@ == (DFSRequestView::Get(GetFileRequestView {
                file_id: file_id@,
                user_id: user_id@,
                user_token: user_token@,
            })),
    {
        DFSRequest::Get(GetFileRequest {
            file_id: file_id.to_owned(),
            user_id: user_id.to_owned(),
            user_token: user_token.to_owned(),
        })
    }

    /// Assembles the request that asks for the caller's file listing.
    pub fn new_list_file(user_id: &str, user_token: &str) -> (r: DFSRequest)
        ensures
            r@ == (DFSRequestView::List(ListFileRequestView {
                user_id: user_id@,
                user_token: user_token@,
            })),
    {
        DFSRequest::List(ListFileRequest {
            user_id: user_id.to_owned(),
            user_token: user_token.to_owned(),
        })
    }

    /// Assembles the request that asks the service to delete one stored file.
    pub fn new_del_file(file_id: &str, user_id: &str, user_token: &str) -> (r: DFSRequest)
        ensures
            r@ == (DFSRequestView::Delete(DeleteFileRequestView {
                file_id: file_id@,
                user_id: user_id@,
                user_token: user_token@,
            })),
    {
        DFSRequest::Delete(DeleteFileRequest {
            file_id: file_id.to_owned(),
            user_id: user_id.to_owned(),
            user_token: user_token.to_owned(),
        })
    }
}

impl DFSResponse {
    /// Assembles the response that answers a create request.
    pub fn new_create_file(
        file_id: &str,
        access_path: &str,
        key_config: &AeadConfig,
    ) -> (r: DFSResponse)
        ensures
            r@ == (DFSResponseView::Create(CreateFileResponseView {
                file_id: file_id@,
                access_path: access_path@,
                key_config: key_config@,
            })),
    {
        DFSResponse::Create(CreateFileResponse {
            file_id: file_id.to_owned(),
            access_path: access_path.to_owned(),
            key_config: key_config.clone(),
        })
    }

    /// Assembles the response that answers a get request. The given record is
    /// copied: the response does not alias the caller's data.
    pub fn new_get_file(file_info: &FileInfo) -> (r: DFSResponse)
        ensures
            r@ == (DFSResponseView::Get(GetFileResponseView { file_info: file_info@ })),
    {
        DFSResponse::Get(GetFileResponse { file_info: file_info.clone() })
    }

    /// Assembles the response that answers a list request, keeping the given
    /// identifiers in their order.
    pub fn new_list_file(list: &[&str]) -> (r: DFSResponse)
        ensures
            r@ == (DFSResponseView::List(ListFileResponseView { list: list.deep_view() })),
    {
        let mut owned: Vec<String> = Vec::new();
        let mut i: usize = 0;
        while i < list.len()
            invariant
                i <= list.len(),
                owned@.len() == i,
                forall|k: int| 0 <= k < i ==> owned@[k]@ == list@[k]@,
            decreases list.len() - i,
        {
            let s: &&str = vstd::slice::slice_index_get(list, i);
            owned.push((*s).to_owned());
            i += 1;
        }
        proof {
            assert(owned.deep_view() =~= list.deep_view());
        }
        DFSResponse::List(ListFileResponse { list: owned })
    }

    /// Assembles the response that answers a delete request. The given record
    /// is copied: the response does not alias the caller's data.
    pub fn new_del_file(file_info: &FileInfo) -> (r: DFSResponse)
        ensures
            r@ == (DFSResponseView::Delete(DeleteFileResponseView { file_info: file_info@ })),
    {
        DFSResponse::Delete(DeleteFileResponse { file_info: file_info.clone() })
    }
}

} // verus!
