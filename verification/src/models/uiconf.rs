//! UI-configuration objects of the remote API. Plain data carried between
//! calls; no token logic reads them.
use vstd::prelude::*;

verus! {

/// The kind of UI-configuration object.
#[derive(Debug, Clone, Copy, PartialEq, Eq)]
pub enum KalturaUiConfObjType {
    Player,
    ContributionWizard,
    SimpleEditor,
    AdvancedEditor,
    Playlist,
    AppStudio,
    KRecord,
    PlayerV3,
    KmcAccount,
    KmcAnalytics,
    KmcContent,
    KmcDashboard,
    KmcLogin,
    PlayerSl,
    ClientSideEncoder,
    KmcGeneral,
    KmcRolesAndPermissions,
    Clipper,
    Ksr,
    KUpload,
    Webcasting,
}

/// How a UI configuration was created.
#[derive(Debug, Clone, Copy, PartialEq, Eq)]
pub enum KalturaUiConfCreationMode {
    WIZARD,
    ADVANCED,
    SYSTEM,
}

/// One UI-configuration object as the remote API describes it.
pub struct KalturaUiConf {
    id: Option<i32>,
    conf_file: Option<String>,
    conf_file_params: Option<String>,
    conf_vars: Option<String>,
    config: Option<String>,
    created_at: Option<i32>,
    creation_mode: Option<KalturaUiConfCreationMode>,
    description: Option<String>,
    height: Option<String>,
    html5_url: Option<String>,
    html_params: Option<String>,
    name: Option<String>,
    obj_type: Option<KalturaUiConfObjType>,
    obj_type_as_string: Option<String>,
    partner_id: Option<i32>,
    partner_tags: Option<String>,
    swf_url: Option<String>,
    swf_url_version: Option<String>,
    tags: Option<String>,
    updated_at: Option<i32>,
    use_cdn: Option<i32>,
    version: Option<String>,
    width: Option<String>,
}

/// A list response holding UI-configuration objects.
pub struct KalturaUiConfListResponse {
    obj_type: Option<String>,
    objects: Vec<KalturaUiConf>,
    total_count: i32,
}

} // verus!
