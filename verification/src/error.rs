//! The errors of the ERF container reader and writer and of the editor, each
//! with its stable diagnostic code.
use vstd::prelude::*;

verus! {

/// Why an ERF container could not be written or read.
#[derive(Debug, Clone, Copy, PartialEq, Eq)]
pub enum ErfError {
    WriteTypeInvalid,
    WriteEntryLimitExceeded,
    WriteDuplicateResource,
    WriteLocalizedStringLimitExceeded,
    WriteLocalizedStringsInvalid,
    WriteSizeOverflow,
    WriteResrefInvalid,
    WriteRangeInvalid,
    HeaderTooShort,
    UnsupportedType,
    UnsupportedVersion,
    EntryLimitExceeded,
    LocalizedStringsOutOfBounds,
    LocalizedStringLimitExceeded,
    KeyTableOutOfBounds,
    ResourceTableOutOfBounds,
    LocalizedStringsInvalid,
    ResourceIdInvalid,
    ResourceOutOfBounds,
    ResourceLimitExceeded,
}

impl ErfError {
    /// The stable diagnostic code of the error, as text.
    pub open spec fn spec_code(&self) -> Seq<char> {
        match self {
            ErfError::WriteTypeInvalid => "ERF_WRITE_TYPE_INVALID"@,
            ErfError::WriteEntryLimitExceeded => "ERF_WRITE_ENTRY_LIMIT_EXCEEDED"@,
            ErfError::WriteDuplicateResource => "ERF_WRITE_DUPLICATE_RESOURCE"@,
            ErfError::WriteLocalizedStringLimitExceeded => "ERF_WRITE_LOCALIZED_STRING_LIMIT_EXCEEDED"@,
            ErfError::WriteLocalizedStringsInvalid => "ERF_WRITE_LOCALIZED_STRINGS_INVALID"@,
            ErfError::WriteSizeOverflow => "ERF_WRITE_SIZE_OVERFLOW"@,
            ErfError::WriteResrefInvalid => "ERF_WRITE_RESREF_INVALID"@,
            ErfError::WriteRangeInvalid => "ERF_WRITE_RANGE_INVALID"@,
            ErfError::HeaderTooShort => "ERF_HEADER_TOO_SHORT"@,
            ErfError::UnsupportedType => "ERF_UNSUPPORTED_TYPE"@,
            ErfError::UnsupportedVersion => "ERF_UNSUPPORTED_VERSION"@,
            ErfError::EntryLimitExceeded => "ERF_ENTRY_LIMIT_EXCEEDED"@,
            ErfError::LocalizedStringsOutOfBounds => "ERF_LOCALIZED_STRINGS_OUT_OF_BOUNDS"@,
            ErfError::LocalizedStringLimitExceeded => "ERF_LOCALIZED_STRING_LIMIT_EXCEEDED"@,
            ErfError::KeyTableOutOfBounds => "ERF_KEY_TABLE_OUT_OF_BOUNDS"@,
            ErfError::ResourceTableOutOfBounds => "ERF_RESOURCE_TABLE_OUT_OF_BOUNDS"@,
            ErfError::LocalizedStringsInvalid => "ERF_LOCALIZED_STRINGS_INVALID"@,
            ErfError::ResourceIdInvalid => "ERF_RESOURCE_ID_INVALID"@,
            ErfError::ResourceOutOfBounds => "ERF_RESOURCE_OUT_OF_BOUNDS"@,
            ErfError::ResourceLimitExceeded => "ERF_RESOURCE_LIMIT_EXCEEDED"@,
        }
    }

    /// The stable diagnostic code of the error.
    pub fn code(&self) -> (code: &'static str)
        ensures
            code@ == self.spec_code(),
    {
        match self {
            ErfError::WriteTypeInvalid => "ERF_WRITE_TYPE_INVALID",
            ErfError::WriteEntryLimitExceeded => "ERF_WRITE_ENTRY_LIMIT_EXCEEDED",
            ErfError::WriteDuplicateResource => "ERF_WRITE_DUPLICATE_RESOURCE",
            ErfError::WriteLocalizedStringLimitExceeded => "ERF_WRITE_LOCALIZED_STRING_LIMIT_EXCEEDED",
            ErfError::WriteLocalizedStringsInvalid => "ERF_WRITE_LOCALIZED_STRINGS_INVALID",
            ErfError::WriteSizeOverflow => "ERF_WRITE_SIZE_OVERFLOW",
            ErfError::WriteResrefInvalid => "ERF_WRITE_RESREF_INVALID",
            ErfError::WriteRangeInvalid => "ERF_WRITE_RANGE_INVALID",
            ErfError::HeaderTooShort => "ERF_HEADER_TOO_SHORT",
            ErfError::UnsupportedType => "ERF_UNSUPPORTED_TYPE",
            ErfError::UnsupportedVersion => "ERF_UNSUPPORTED_VERSION",
            ErfError::EntryLimitExceeded => "ERF_ENTRY_LIMIT_EXCEEDED",
            ErfError::LocalizedStringsOutOfBounds => "ERF_LOCALIZED_STRINGS_OUT_OF_BOUNDS",
            ErfError::LocalizedStringLimitExceeded => "ERF_LOCALIZED_STRING_LIMIT_EXCEEDED",
            ErfError::KeyTableOutOfBounds => "ERF_KEY_TABLE_OUT_OF_BOUNDS",
            ErfError::ResourceTableOutOfBounds => "ERF_RESOURCE_TABLE_OUT_OF_BOUNDS",
            ErfError::LocalizedStringsInvalid => "ERF_LOCALIZED_STRINGS_INVALID",
            ErfError::ResourceIdInvalid => "ERF_RESOURCE_ID_INVALID",
            ErfError::ResourceOutOfBounds => "ERF_RESOURCE_OUT_OF_BOUNDS",
            ErfError::ResourceLimitExceeded => "ERF_RESOURCE_LIMIT_EXCEEDED",
        }
    }
}

/// Why an editing operation was refused.
#[derive(Debug, Clone, Copy, PartialEq, Eq)]
pub enum EditError {
    ResrefInvalid,
    MapSchemaUnsupported,
    MapIdentityInvalid,
    MapDimensionsInvalid,
    MapMarginInvalid,
    MapLimitExceeded,
    MapDensityInvalid,
    AuroraSyncPathInvalid,
    AuroraSyncExtensionInvalid,
    AuroraSyncResrefInvalid,
    AuroraSyncDuplicateResource,
    AuroraSyncPreconditionFailed,
    BuildProfileInvalid,
    DependencyNameInvalid,
    LaunchProfileInvalid,
    JournalTagInvalid,
    FactionNameInvalid,
    WalkmeshResrefInvalid,
    AiSummaryInvalid,
    AiCommandCountInvalid,
    AiCommandInvalid,
    AiResourceTypeUnsupported,
    AiFieldOperationTooLarge,
    AiScriptTooLarge,
    AiCommandUnsupported,
    AiProposalTooLarge,
    AiProposalChanged,
    PreconditionFailed,
    NothingToUndo,
    NothingToRedo,
    UndoConflict,
    RedoConflict,
    AreaAudioInvalid,
    FactionLimitExceeded,
    FactionParentNotFound,
    FactionNameDuplicate,
    FactionPcRemoveForbidden,
    FactionNotFound,
    FactionReputationEndpointNotFound,
    FactionReputationPcTargetInvalid,
    FactionReputationValueInvalid,
    FactionReputationDuplicate,
    FactionReputationNotFound,
    JournalCategoryLimitExceeded,
    JournalTagDuplicate,
    JournalCategoryNotFound,
    JournalEntryLimitExceeded,
    JournalEntryNotFound,
    JournalEntryIdExhausted,
    AreaInstanceIdInvalid,
    InstanceCategoryUnsupported,
    BuildProfileWarningsBlocked,
    DeploymentWorkspaceMismatch,
    NewModuleIdentityInvalid,
    ModuleManifestInvalid,
    ModuleAreaDuplicate,
    ModuleEntryAreaMissing,
    SourceChanged,
    WorkspaceVersionUnsupported,
    WorkspaceCursorInvalid,
    BlueprintListFormatInvalid,
    WalkmeshFaceNotFound,
    WalkmeshFaceInvalid,
    HakEmpty,
    AreaEnvironmentInvalid,
    GffFieldNotFound,
    GffPathInvalid,
    BlueprintClassLevelInvalid,
    BlueprintClassIdInvalid,
    BlueprintPropertyChanceInvalid,
    BlueprintAppearanceInvalid,
    BlueprintChallengeRatingInvalid,
    BlueprintListLimitExceeded,
    BlueprintEntryDuplicate,
    BlueprintEntryNotFound,
    AreaGeometryCategoryInvalid,
    AreaSpawnCategoryInvalid,
    AreaSpawnPointsInvalid,
    AreaTransitionCategoryInvalid,
    AreaTransitionDestinationInvalid,
    AreaInventoryStackInvalid,
    AreaInventoryTemplateRequired,
    AreaInventoryTemplateInvalid,
    AreaInventoryCategoryRequired,
    AreaInventoryCategoryInvalid,
    AreaDimensionsInvalid,
    DialogueFormatInvalid,
    DialogueNodeLimitExceeded,
    DialogueNodeNotFound,
    DialogueNodeListNotFound,
    DialogueNodeListInvalid,
    DialogueLinkKindInvalid,
    DialogueLinkTargetNotFound,
    DialogueLinkLimitExceeded,
    DialogueLinkNotFound,
    DialogueLinkListInvalid,
    DialogueLinkIndexInvalid,
    FactionFormatInvalid,
    JournalFormatInvalid,
    WorkspaceSourceOverlap,
    BuildSourceOverwriteBlocked,
    ResourceTransactionRequired,
    ResourceHashTransactionMismatch,
    AreaInventoryLimitExceeded,
    AreaInventoryItemNotFound,
    AreaInventoryCategoryNotFound,
    BuildExtensionInvalid,
    BuildReopenFailed,
    WalkmeshSurfaceInvalid,
    WalkmeshWokStructureInvalid,
}

impl EditError {
    /// The stable diagnostic code of the error, as text.
    pub open spec fn spec_code(&self) -> Seq<char> {
        match self {
            EditError::ResrefInvalid => "EDIT_RESREF_INVALID"@,
            EditError::MapSchemaUnsupported => "EDIT_MAP_SCHEMA_UNSUPPORTED"@,
            EditError::MapIdentityInvalid => "EDIT_MAP_IDENTITY_INVALID"@,
            EditError::MapDimensionsInvalid => "EDIT_MAP_DIMENSIONS_INVALID"@,
            EditError::MapMarginInvalid => "EDIT_MAP_MARGIN_INVALID"@,
            EditError::MapLimitExceeded => "EDIT_MAP_LIMIT_EXCEEDED"@,
            EditError::MapDensityInvalid => "EDIT_MAP_DENSITY_INVALID"@,
            EditError::AuroraSyncPathInvalid => "EDIT_AURORA_SYNC_PATH_INVALID"@,
            EditError::AuroraSyncExtensionInvalid => "EDIT_AURORA_SYNC_EXTENSION_INVALID"@,
            EditError::AuroraSyncResrefInvalid => "EDIT_AURORA_SYNC_RESREF_INVALID"@,
            EditError::AuroraSyncDuplicateResource => "EDIT_AURORA_SYNC_DUPLICATE_RESOURCE"@,
            EditError::AuroraSyncPreconditionFailed => "EDIT_AURORA_SYNC_PRECONDITION_FAILED"@,
            EditError::BuildProfileInvalid => "EDIT_BUILD_PROFILE_INVALID"@,
            EditError::DependencyNameInvalid => "EDIT_DEPENDENCY_NAME_INVALID"@,
            EditError::LaunchProfileInvalid => "EDIT_LAUNCH_PROFILE_INVALID"@,
            EditError::JournalTagInvalid => "EDIT_JOURNAL_TAG_INVALID"@,
            EditError::FactionNameInvalid => "EDIT_FACTION_NAME_INVALID"@,
            EditError::WalkmeshResrefInvalid => "EDIT_WALKMESH_RESREF_INVALID"@,
            EditError::AiSummaryInvalid => "EDIT_AI_SUMMARY_INVALID"@,
            EditError::AiCommandCountInvalid => "EDIT_AI_COMMAND_COUNT_INVALID"@,
            EditError::AiCommandInvalid => "EDIT_AI_COMMAND_INVALID"@,
            EditError::AiResourceTypeUnsupported => "EDIT_AI_RESOURCE_TYPE_UNSUPPORTED"@,
            EditError::AiFieldOperationTooLarge => "EDIT_AI_FIELD_OPERATION_TOO_LARGE"@,
            EditError::AiScriptTooLarge => "EDIT_AI_SCRIPT_TOO_LARGE"@,
            EditError::AiCommandUnsupported => "EDIT_AI_COMMAND_UNSUPPORTED"@,
            EditError::AiProposalTooLarge => "EDIT_AI_PROPOSAL_TOO_LARGE"@,
            EditError::AiProposalChanged => "EDIT_AI_PROPOSAL_CHANGED"@,
            EditError::PreconditionFailed => "EDIT_PRECONDITION_FAILED"@,
            EditError::NothingToUndo => "EDIT_NOTHING_TO_UNDO"@,
            EditError::NothingToRedo => "EDIT_NOTHING_TO_REDO"@,
            EditError::UndoConflict => "EDIT_UNDO_CONFLICT"@,
            EditError::RedoConflict => "EDIT_REDO_CONFLICT"@,
            EditError::AreaAudioInvalid => "EDIT_AREA_AUDIO_INVALID"@,
            EditError::FactionLimitExceeded => "EDIT_FACTION_LIMIT_EXCEEDED"@,
            EditError::FactionParentNotFound => "EDIT_FACTION_PARENT_NOT_FOUND"@,
            EditError::FactionNameDuplicate => "EDIT_FACTION_NAME_DUPLICATE"@,
            EditError::FactionPcRemoveForbidden => "EDIT_FACTION_PC_REMOVE_FORBIDDEN"@,
            EditError::FactionNotFound => "EDIT_FACTION_NOT_FOUND"@,
            EditError::FactionReputationEndpointNotFound => "EDIT_FACTION_REPUTATION_ENDPOINT_NOT_FOUND"@,
            EditError::FactionReputationPcTargetInvalid => "EDIT_FACTION_REPUTATION_PC_TARGET_INVALID"@,
            EditError::FactionReputationValueInvalid => "EDIT_FACTION_REPUTATION_VALUE_INVALID"@,
            EditError::FactionReputationDuplicate => "EDIT_FACTION_REPUTATION_DUPLICATE"@,
            EditError::FactionReputationNotFound => "EDIT_FACTION_REPUTATION_NOT_FOUND"@,
            EditError::JournalCategoryLimitExceeded => "EDIT_JOURNAL_CATEGORY_LIMIT_EXCEEDED"@,
            EditError::JournalTagDuplicate => "EDIT_JOURNAL_TAG_DUPLICATE"@,
            EditError::JournalCategoryNotFound => "EDIT_JOURNAL_CATEGORY_NOT_FOUND"@,
            EditError::JournalEntryLimitExceeded => "EDIT_JOURNAL_ENTRY_LIMIT_EXCEEDED"@,
            EditError::JournalEntryNotFound => "EDIT_JOURNAL_ENTRY_NOT_FOUND"@,
            EditError::JournalEntryIdExhausted => "EDIT_JOURNAL_ENTRY_ID_EXHAUSTED"@,
            EditError::AreaInstanceIdInvalid => "EDIT_AREA_INSTANCE_ID_INVALID"@,
            EditError::InstanceCategoryUnsupported => "EDIT_INSTANCE_CATEGORY_UNSUPPORTED"@,
            EditError::BuildProfileWarningsBlocked => "EDIT_BUILD_PROFILE_WARNINGS_BLOCKED"@,
            EditError::DeploymentWorkspaceMismatch => "EDIT_DEPLOYMENT_WORKSPACE_MISMATCH"@,
            EditError::NewModuleIdentityInvalid => "EDIT_NEW_MODULE_IDENTITY_INVALID"@,
            EditError::ModuleManifestInvalid => "EDIT_MODULE_MANIFEST_INVALID"@,
            EditError::ModuleAreaDuplicate => "EDIT_MODULE_AREA_DUPLICATE"@,
            EditError::ModuleEntryAreaMissing => "EDIT_MODULE_ENTRY_AREA_MISSING"@,
            EditError::SourceChanged => "EDIT_SOURCE_CHANGED"@,
            EditError::WorkspaceVersionUnsupported => "EDIT_WORKSPACE_VERSION_UNSUPPORTED"@,
            EditError::WorkspaceCursorInvalid => "EDIT_WORKSPACE_CURSOR_INVALID"@,
            EditError::BlueprintListFormatInvalid => "EDIT_BLUEPRINT_LIST_FORMAT_INVALID"@,
            EditError::WalkmeshFaceNotFound => "EDIT_WALKMESH_FACE_NOT_FOUND"@,
            EditError::WalkmeshFaceInvalid => "EDIT_WALKMESH_FACE_INVALID"@,
            EditError::HakEmpty => "EDIT_HAK_EMPTY"@,
            EditError::AreaEnvironmentInvalid => "EDIT_AREA_ENVIRONMENT_INVALID"@,
            EditError::GffFieldNotFound => "EDIT_GFF_FIELD_NOT_FOUND"@,
            EditError::GffPathInvalid => "EDIT_GFF_PATH_INVALID"@,
            EditError::BlueprintClassLevelInvalid => "EDIT_BLUEPRINT_CLASS_LEVEL_INVALID"@,
            EditError::BlueprintClassIdInvalid => "EDIT_BLUEPRINT_CLASS_ID_INVALID"@,
            EditError::BlueprintPropertyChanceInvalid => "EDIT_BLUEPRINT_PROPERTY_CHANCE_INVALID"@,
            EditError::BlueprintAppearanceInvalid => "EDIT_BLUEPRINT_APPEARANCE_INVALID"@,
            EditError::BlueprintChallengeRatingInvalid => "EDIT_BLUEPRINT_CHALLENGE_RATING_INVALID"@,
            EditError::BlueprintListLimitExceeded => "EDIT_BLUEPRINT_LIST_LIMIT_EXCEEDED"@,
            EditError::BlueprintEntryDuplicate => "EDIT_BLUEPRINT_ENTRY_DUPLICATE"@,
            EditError::BlueprintEntryNotFound => "EDIT_BLUEPRINT_ENTRY_NOT_FOUND"@,
            EditError::AreaGeometryCategoryInvalid => "EDIT_AREA_GEOMETRY_CATEGORY_INVALID"@,
            EditError::AreaSpawnCategoryInvalid => "EDIT_AREA_SPAWN_CATEGORY_INVALID"@,
            EditError::AreaSpawnPointsInvalid => "EDIT_AREA_SPAWN_POINTS_INVALID"@,
            EditError::AreaTransitionCategoryInvalid => "EDIT_AREA_TRANSITION_CATEGORY_INVALID"@,
            EditError::AreaTransitionDestinationInvalid => "EDIT_AREA_TRANSITION_DESTINATION_INVALID"@,
            EditError::AreaInventoryStackInvalid => "EDIT_AREA_INVENTORY_STACK_INVALID"@,
            EditError::AreaInventoryTemplateRequired => "EDIT_AREA_INVENTORY_TEMPLATE_REQUIRED"@,
            EditError::AreaInventoryTemplateInvalid => "EDIT_AREA_INVENTORY_TEMPLATE_INVALID"@,
            EditError::AreaInventoryCategoryRequired => "EDIT_AREA_INVENTORY_CATEGORY_REQUIRED"@,
            EditError::AreaInventoryCategoryInvalid => "EDIT_AREA_INVENTORY_CATEGORY_INVALID"@,
            EditError::AreaDimensionsInvalid => "EDIT_AREA_DIMENSIONS_INVALID"@,
            EditError::DialogueFormatInvalid => "EDIT_DIALOGUE_FORMAT_INVALID"@,
            EditError::DialogueNodeLimitExceeded => "EDIT_DIALOGUE_NODE_LIMIT_EXCEEDED"@,
            EditError::DialogueNodeNotFound => "EDIT_DIALOGUE_NODE_NOT_FOUND"@,
            EditError::DialogueNodeListNotFound => "EDIT_DIALOGUE_NODE_LIST_NOT_FOUND"@,
            EditError::DialogueNodeListInvalid => "EDIT_DIALOGUE_NODE_LIST_INVALID"@,
            EditError::DialogueLinkKindInvalid => "EDIT_DIALOGUE_LINK_KIND_INVALID"@,
            EditError::DialogueLinkTargetNotFound => "EDIT_DIALOGUE_LINK_TARGET_NOT_FOUND"@,
            EditError::DialogueLinkLimitExceeded => "EDIT_DIALOGUE_LINK_LIMIT_EXCEEDED"@,
            EditError::DialogueLinkNotFound => "EDIT_DIALOGUE_LINK_NOT_FOUND"@,
            EditError::DialogueLinkListInvalid => "EDIT_DIALOGUE_LINK_LIST_INVALID"@,
            EditError::DialogueLinkIndexInvalid => "EDIT_DIALOGUE_LINK_INDEX_INVALID"@,
            EditError::FactionFormatInvalid => "EDIT_FACTION_FORMAT_INVALID"@,
            EditError::JournalFormatInvalid => "EDIT_JOURNAL_FORMAT_INVALID"@,
            EditError::WorkspaceSourceOverlap => "EDIT_WORKSPACE_SOURCE_OVERLAP"@,
            EditError::BuildSourceOverwriteBlocked => "EDIT_BUILD_SOURCE_OVERWRITE_BLOCKED"@,
            EditError::ResourceTransactionRequired => "EDIT_RESOURCE_TRANSACTION_REQUIRED"@,
            EditError::ResourceHashTransactionMismatch => "EDIT_RESOURCE_HASH_TRANSACTION_MISMATCH"@,
            EditError::AreaInventoryLimitExceeded => "EDIT_AREA_INVENTORY_LIMIT_EXCEEDED"@,
            EditError::AreaInventoryItemNotFound => "EDIT_AREA_INVENTORY_ITEM_NOT_FOUND"@,
            EditError::AreaInventoryCategoryNotFound => "EDIT_AREA_INVENTORY_CATEGORY_NOT_FOUND"@,
            EditError::BuildExtensionInvalid => "EDIT_BUILD_EXTENSION_INVALID"@,
            EditError::BuildReopenFailed => "EDIT_BUILD_REOPEN_FAILED"@,
            EditError::WalkmeshSurfaceInvalid => "EDIT_WALKMESH_SURFACE_INVALID"@,
            EditError::WalkmeshWokStructureInvalid => "EDIT_WALKMESH_WOK_STRUCTURE_INVALID"@,
        }
    }

    /// The stable diagnostic code of the error.
    pub fn code(&self) -> (code: &'static str)
        ensures
            code@ == self.spec_code(),
    {
        match self {
            EditError::ResrefInvalid => "EDIT_RESREF_INVALID",
            EditError::MapSchemaUnsupported => "EDIT_MAP_SCHEMA_UNSUPPORTED",
            EditError::MapIdentityInvalid => "EDIT_MAP_IDENTITY_INVALID",
            EditError::MapDimensionsInvalid => "EDIT_MAP_DIMENSIONS_INVALID",
            EditError::MapMarginInvalid => "EDIT_MAP_MARGIN_INVALID",
            EditError::MapLimitExceeded => "EDIT_MAP_LIMIT_EXCEEDED",
            EditError::MapDensityInvalid => "EDIT_MAP_DENSITY_INVALID",
            EditError::AuroraSyncPathInvalid => "EDIT_AURORA_SYNC_PATH_INVALID",
            EditError::AuroraSyncExtensionInvalid => "EDIT_AURORA_SYNC_EXTENSION_INVALID",
            EditError::AuroraSyncResrefInvalid => "EDIT_AURORA_SYNC_RESREF_INVALID",
            EditError::AuroraSyncDuplicateResource => "EDIT_AURORA_SYNC_DUPLICATE_RESOURCE",
            EditError::AuroraSyncPreconditionFailed => "EDIT_AURORA_SYNC_PRECONDITION_FAILED",
            EditError::BuildProfileInvalid => "EDIT_BUILD_PROFILE_INVALID",
            EditError::DependencyNameInvalid => "EDIT_DEPENDENCY_NAME_INVALID",
            EditError::LaunchProfileInvalid => "EDIT_LAUNCH_PROFILE_INVALID",
            EditError::JournalTagInvalid => "EDIT_JOURNAL_TAG_INVALID",
            EditError::FactionNameInvalid => "EDIT_FACTION_NAME_INVALID",
            EditError::WalkmeshResrefInvalid => "EDIT_WALKMESH_RESREF_INVALID",
            EditError::AiSummaryInvalid => "EDIT_AI_SUMMARY_INVALID",
            EditError::AiCommandCountInvalid => "EDIT_AI_COMMAND_COUNT_INVALID",
            EditError::AiCommandInvalid => "EDIT_AI_COMMAND_INVALID",
            EditError::AiResourceTypeUnsupported => "EDIT_AI_RESOURCE_TYPE_UNSUPPORTED",
            EditError::AiFieldOperationTooLarge => "EDIT_AI_FIELD_OPERATION_TOO_LARGE",
            EditError::AiScriptTooLarge => "EDIT_AI_SCRIPT_TOO_LARGE",
            EditError::AiCommandUnsupported => "EDIT_AI_COMMAND_UNSUPPORTED",
            EditError::AiProposalTooLarge => "EDIT_AI_PROPOSAL_TOO_LARGE",
            EditError::AiProposalChanged => "EDIT_AI_PROPOSAL_CHANGED",
            EditError::PreconditionFailed => "EDIT_PRECONDITION_FAILED",
            EditError::NothingToUndo => "EDIT_NOTHING_TO_UNDO",
            EditError::NothingToRedo => "EDIT_NOTHING_TO_REDO",
            EditError::UndoConflict => "EDIT_UNDO_CONFLICT",
            EditError::RedoConflict => "EDIT_REDO_CONFLICT",
            EditError::AreaAudioInvalid => "EDIT_AREA_AUDIO_INVALID",
            EditError::FactionLimitExceeded => "EDIT_FACTION_LIMIT_EXCEEDED",
            EditError::FactionParentNotFound => "EDIT_FACTION_PARENT_NOT_FOUND",
            EditError::FactionNameDuplicate => "EDIT_FACTION_NAME_DUPLICATE",
            EditError::FactionPcRemoveForbidden => "EDIT_FACTION_PC_REMOVE_FORBIDDEN",
            EditError::FactionNotFound => "EDIT_FACTION_NOT_FOUND",
            EditError::FactionReputationEndpointNotFound => "EDIT_FACTION_REPUTATION_ENDPOINT_NOT_FOUND",
            EditError::FactionReputationPcTargetInvalid => "EDIT_FACTION_REPUTATION_PC_TARGET_INVALID",
            EditError::FactionReputationValueInvalid => "EDIT_FACTION_REPUTATION_VALUE_INVALID",
            EditError::FactionReputationDuplicate => "EDIT_FACTION_REPUTATION_DUPLICATE",
            EditError::FactionReputationNotFound => "EDIT_FACTION_REPUTATION_NOT_FOUND",
            EditError::JournalCategoryLimitExceeded => "EDIT_JOURNAL_CATEGORY_LIMIT_EXCEEDED",
            EditError::JournalTagDuplicate => "EDIT_JOURNAL_TAG_DUPLICATE",
            EditError::JournalCategoryNotFound => "EDIT_JOURNAL_CATEGORY_NOT_FOUND",
            EditError::JournalEntryLimitExceeded => "EDIT_JOURNAL_ENTRY_LIMIT_EXCEEDED",
            EditError::JournalEntryNotFound => "EDIT_JOURNAL_ENTRY_NOT_FOUND",
            EditError::JournalEntryIdExhausted => "EDIT_JOURNAL_ENTRY_ID_EXHAUSTED",
            EditError::AreaInstanceIdInvalid => "EDIT_AREA_INSTANCE_ID_INVALID",
            EditError::InstanceCategoryUnsupported => "EDIT_INSTANCE_CATEGORY_UNSUPPORTED",
            EditError::BuildProfileWarningsBlocked => "EDIT_BUILD_PROFILE_WARNINGS_BLOCKED",
            EditError::DeploymentWorkspaceMismatch => "EDIT_DEPLOYMENT_WORKSPACE_MISMATCH",
            EditError::NewModuleIdentityInvalid => "EDIT_NEW_MODULE_IDENTITY_INVALID",
            EditError::ModuleManifestInvalid => "EDIT_MODULE_MANIFEST_INVALID",
            EditError::ModuleAreaDuplicate => "EDIT_MODULE_AREA_DUPLICATE",
            EditError::ModuleEntryAreaMissing => "EDIT_MODULE_ENTRY_AREA_MISSING",
            EditError::SourceChanged => "EDIT_SOURCE_CHANGED",
            EditError::WorkspaceVersionUnsupported => "EDIT_WORKSPACE_VERSION_UNSUPPORTED",
            EditError::WorkspaceCursorInvalid => "EDIT_WORKSPACE_CURSOR_INVALID",
            EditError::BlueprintListFormatInvalid => "EDIT_BLUEPRINT_LIST_FORMAT_INVALID",
            EditError::WalkmeshFaceNotFound => "EDIT_WALKMESH_FACE_NOT_FOUND",
            EditError::WalkmeshFaceInvalid => "EDIT_WALKMESH_FACE_INVALID",
            EditError::HakEmpty => "EDIT_HAK_EMPTY",
            EditError::AreaEnvironmentInvalid => "EDIT_AREA_ENVIRONMENT_INVALID",
            EditError::GffFieldNotFound => "EDIT_GFF_FIELD_NOT_FOUND",
            EditError::GffPathInvalid => "EDIT_GFF_PATH_INVALID",
            EditError::BlueprintClassLevelInvalid => "EDIT_BLUEPRINT_CLASS_LEVEL_INVALID",
            EditError::BlueprintClassIdInvalid => "EDIT_BLUEPRINT_CLASS_ID_INVALID",
            EditError::BlueprintPropertyChanceInvalid => "EDIT_BLUEPRINT_PROPERTY_CHANCE_INVALID",
            EditError::BlueprintAppearanceInvalid => "EDIT_BLUEPRINT_APPEARANCE_INVALID",
            EditError::BlueprintChallengeRatingInvalid => "EDIT_BLUEPRINT_CHALLENGE_RATING_INVALID",
            EditError::BlueprintListLimitExceeded => "EDIT_BLUEPRINT_LIST_LIMIT_EXCEEDED",
            EditError::BlueprintEntryDuplicate => "EDIT_BLUEPRINT_ENTRY_DUPLICATE",
            EditError::BlueprintEntryNotFound => "EDIT_BLUEPRINT_ENTRY_NOT_FOUND",
            EditError::AreaGeometryCategoryInvalid => "EDIT_AREA_GEOMETRY_CATEGORY_INVALID",
            EditError::AreaSpawnCategoryInvalid => "EDIT_AREA_SPAWN_CATEGORY_INVALID",
            EditError::AreaSpawnPointsInvalid => "EDIT_AREA_SPAWN_POINTS_INVALID",
            EditError::AreaTransitionCategoryInvalid => "EDIT_AREA_TRANSITION_CATEGORY_INVALID",
            EditError::AreaTransitionDestinationInvalid => "EDIT_AREA_TRANSITION_DESTINATION_INVALID",
            EditError::AreaInventoryStackInvalid => "EDIT_AREA_INVENTORY_STACK_INVALID",
            EditError::AreaInventoryTemplateRequired => "EDIT_AREA_INVENTORY_TEMPLATE_REQUIRED",
            EditError::AreaInventoryTemplateInvalid => "EDIT_AREA_INVENTORY_TEMPLATE_INVALID",
            EditError::AreaInventoryCategoryRequired => "EDIT_AREA_INVENTORY_CATEGORY_REQUIRED",
            EditError::AreaInventoryCategoryInvalid => "EDIT_AREA_INVENTORY_CATEGORY_INVALID",
            EditError::AreaDimensionsInvalid => "EDIT_AREA_DIMENSIONS_INVALID",
            EditError::DialogueFormatInvalid => "EDIT_DIALOGUE_FORMAT_INVALID",
            EditError::DialogueNodeLimitExceeded => "EDIT_DIALOGUE_NODE_LIMIT_EXCEEDED",
            EditError::DialogueNodeNotFound => "EDIT_DIALOGUE_NODE_NOT_FOUND",
            EditError::DialogueNodeListNotFound => "EDIT_DIALOGUE_NODE_LIST_NOT_FOUND",
            EditError::DialogueNodeListInvalid => "EDIT_DIALOGUE_NODE_LIST_INVALID",
            EditError::DialogueLinkKindInvalid => "EDIT_DIALOGUE_LINK_KIND_INVALID",
            EditError::DialogueLinkTargetNotFound => "EDIT_DIALOGUE_LINK_TARGET_NOT_FOUND",
            EditError::DialogueLinkLimitExceeded => "EDIT_DIALOGUE_LINK_LIMIT_EXCEEDED",
            EditError::DialogueLinkNotFound => "EDIT_DIALOGUE_LINK_NOT_FOUND",
            EditError::DialogueLinkListInvalid => "EDIT_DIALOGUE_LINK_LIST_INVALID",
            EditError::DialogueLinkIndexInvalid => "EDIT_DIALOGUE_LINK_INDEX_INVALID",
            EditError::FactionFormatInvalid => "EDIT_FACTION_FORMAT_INVALID",
            EditError::JournalFormatInvalid => "EDIT_JOURNAL_FORMAT_INVALID",
            EditError::WorkspaceSourceOverlap => "EDIT_WORKSPACE_SOURCE_OVERLAP",
            EditError::BuildSourceOverwriteBlocked => "EDIT_BUILD_SOURCE_OVERWRITE_BLOCKED",
            EditError::ResourceTransactionRequired => "EDIT_RESOURCE_TRANSACTION_REQUIRED",
            EditError::ResourceHashTransactionMismatch => "EDIT_RESOURCE_HASH_TRANSACTION_MISMATCH",
            EditError::AreaInventoryLimitExceeded => "EDIT_AREA_INVENTORY_LIMIT_EXCEEDED",
            EditError::AreaInventoryItemNotFound => "EDIT_AREA_INVENTORY_ITEM_NOT_FOUND",
            EditError::AreaInventoryCategoryNotFound => "EDIT_AREA_INVENTORY_CATEGORY_NOT_FOUND",
            EditError::BuildExtensionInvalid => "EDIT_BUILD_EXTENSION_INVALID",
            EditError::BuildReopenFailed => "EDIT_BUILD_REOPEN_FAILED",
            EditError::WalkmeshSurfaceInvalid => "EDIT_WALKMESH_SURFACE_INVALID",
            EditError::WalkmeshWokStructureInvalid => "EDIT_WALKMESH_WOK_STRUCTURE_INVALID",
        }
    }
}

} // verus!
