use vstd::prelude::*;

use crate::text::{chars_eq, chars_of};

verus! {

/// Every kind of user data that an erasure must account for, in erasure order.
#[derive(Clone, Copy, Debug, PartialEq, Eq, Structural, PartialOrd, Ord, Hash)]
pub enum UserDataTargetKind {
    CoreSqlite,
    CoreWal,
    CoreShm,
    EpisodeSqlite,
    EpisodeWal,
    EpisodeShm,
    RecallIndex,
    RecallIndexWal,
    RecallIndexShm,
    DownloadedMediaRoot,
    StagedMediaRoot,
    TranscriptArtifactRoot,
    LegacyTranscriptRoot,
    ChapterArtifactRoot,
    MigrationBackupRoot,
    ApplicationStateProjection,
    NativeObservationOutbox,
    NativeObservationLease,
    AgentGeneratedAudioRoot,
    LegacyChatHistoryRoot,
    LegacyWorkflowStore,
    LegacyWorkflowArtifactRoot,
    CostLedger,
    AgentConversationPointer,
    SpotlightIndex,
    NowPlayingProjection,
    ProductSignals,
}

/// The number of target kinds.
pub const KIND_COUNT: usize = 27;

impl UserDataTargetKind {
    /// Every kind, in declaration (and therefore erasure) order.
    pub const ALL: [Self; 27] = [
        Self::CoreSqlite,
        Self::CoreWal,
        Self::CoreShm,
        Self::EpisodeSqlite,
        Self::EpisodeWal,
        Self::EpisodeShm,
        Self::RecallIndex,
        Self::RecallIndexWal,
        Self::RecallIndexShm,
        Self::DownloadedMediaRoot,
        Self::StagedMediaRoot,
        Self::TranscriptArtifactRoot,
        Self::LegacyTranscriptRoot,
        Self::ChapterArtifactRoot,
        Self::MigrationBackupRoot,
        Self::ApplicationStateProjection,
        Self::NativeObservationOutbox,
        Self::NativeObservationLease,
        Self::AgentGeneratedAudioRoot,
        Self::LegacyChatHistoryRoot,
        Self::LegacyWorkflowStore,
        Self::LegacyWorkflowArtifactRoot,
        Self::CostLedger,
        Self::AgentConversationPointer,
        Self::SpotlightIndex,
        Self::NowPlayingProjection,
        Self::ProductSignals,
    ];

    /// The position of the kind in declaration order; the derived order of the
    /// type is the order of this number.
    pub open spec fn rank(self) -> nat {
        match self {
            Self::CoreSqlite => 0,
            Self::CoreWal => 1,
            Self::CoreShm => 2,
            Self::EpisodeSqlite => 3,
            Self::EpisodeWal => 4,
            Self::EpisodeShm => 5,
            Self::RecallIndex => 6,
            Self::RecallIndexWal => 7,
            Self::RecallIndexShm => 8,
            Self::DownloadedMediaRoot => 9,
            Self::StagedMediaRoot => 10,
            Self::TranscriptArtifactRoot => 11,
            Self::LegacyTranscriptRoot => 12,
            Self::ChapterArtifactRoot => 13,
            Self::MigrationBackupRoot => 14,
            Self::ApplicationStateProjection => 15,
            Self::NativeObservationOutbox => 16,
            Self::NativeObservationLease => 17,
            Self::AgentGeneratedAudioRoot => 18,
            Self::LegacyChatHistoryRoot => 19,
            Self::LegacyWorkflowStore => 20,
            Self::LegacyWorkflowArtifactRoot => 21,
            Self::CostLedger => 22,
            Self::AgentConversationPointer => 23,
            Self::SpotlightIndex => 24,
            Self::NowPlayingProjection => 25,
            Self::ProductSignals => 26,
        }
    }

    /// The kind at a given position of declaration order.
    pub open spec fn at_rank(rank: nat) -> Self
        recommends
            rank < 27,
    {
        if rank == 0 {
            Self::CoreSqlite
        } else if rank == 1 {
            Self::CoreWal
        } else if rank == 2 {
            Self::CoreShm
        } else if rank == 3 {
            Self::EpisodeSqlite
        } else if rank == 4 {
            Self::EpisodeWal
        } else if rank == 5 {
            Self::EpisodeShm
        } else if rank == 6 {
            Self::RecallIndex
        } else if rank == 7 {
            Self::RecallIndexWal
        } else if rank == 8 {
            Self::RecallIndexShm
        } else if rank == 9 {
            Self::DownloadedMediaRoot
        } else if rank == 10 {
            Self::StagedMediaRoot
        } else if rank == 11 {
            Self::TranscriptArtifactRoot
        } else if rank == 12 {
            Self::LegacyTranscriptRoot
        } else if rank == 13 {
            Self::ChapterArtifactRoot
        } else if rank == 14 {
            Self::MigrationBackupRoot
        } else if rank == 15 {
            Self::ApplicationStateProjection
        } else if rank == 16 {
            Self::NativeObservationOutbox
        } else if rank == 17 {
            Self::NativeObservationLease
        } else if rank == 18 {
            Self::AgentGeneratedAudioRoot
        } else if rank == 19 {
            Self::LegacyChatHistoryRoot
        } else if rank == 20 {
            Self::LegacyWorkflowStore
        } else if rank == 21 {
            Self::LegacyWorkflowArtifactRoot
        } else if rank == 22 {
            Self::CostLedger
        } else if rank == 23 {
            Self::AgentConversationPointer
        } else if rank == 24 {
            Self::SpotlightIndex
        } else if rank == 25 {
            Self::NowPlayingProjection
        } else {
            Self::ProductSignals
        }
    }

    /// The stable wire name of the kind, as characters.
    pub open spec fn wire(self) -> Seq<char> {
        match self {
            Self::CoreSqlite => "core_sqlite"@,
            Self::CoreWal => "core_wal"@,
            Self::CoreShm => "core_shm"@,
            Self::EpisodeSqlite => "episode_sqlite"@,
            Self::EpisodeWal => "episode_wal"@,
            Self::EpisodeShm => "episode_shm"@,
            Self::RecallIndex => "recall_index"@,
            Self::RecallIndexWal => "recall_index_wal"@,
            Self::RecallIndexShm => "recall_index_shm"@,
            Self::DownloadedMediaRoot => "downloaded_media_root"@,
            Self::StagedMediaRoot => "staged_media_root"@,
            Self::TranscriptArtifactRoot => "transcript_artifact_root"@,
            Self::LegacyTranscriptRoot => "legacy_transcript_root"@,
            Self::ChapterArtifactRoot => "chapter_artifact_root"@,
            Self::MigrationBackupRoot => "migration_backup_root"@,
            Self::ApplicationStateProjection => "application_state_projection"@,
            Self::NativeObservationOutbox => "native_observation_outbox"@,
            Self::NativeObservationLease => "native_observation_lease"@,
            Self::AgentGeneratedAudioRoot => "agent_generated_audio_root"@,
            Self::LegacyChatHistoryRoot => "legacy_chat_history_root"@,
            Self::LegacyWorkflowStore => "legacy_workflow_store"@,
            Self::LegacyWorkflowArtifactRoot => "legacy_workflow_artifact_root"@,
            Self::CostLedger => "cost_ledger"@,
            Self::AgentConversationPointer => "agent_conversation_pointer"@,
            Self::SpotlightIndex => "spotlight_index"@,
            Self::NowPlayingProjection => "now_playing_projection"@,
            Self::ProductSignals => "product_signals"@,
        }
    }

    /// Executable position of the kind in declaration order.
    pub fn rank_of(self) -> (r: u8)
        ensures
            r as nat == self.rank(),
    {
        match self {
            Self::CoreSqlite => 0,
            Self::CoreWal => 1,
            Self::CoreShm => 2,
            Self::EpisodeSqlite => 3,
            Self::EpisodeWal => 4,
            Self::EpisodeShm => 5,
            Self::RecallIndex => 6,
            Self::RecallIndexWal => 7,
            Self::RecallIndexShm => 8,
            Self::DownloadedMediaRoot => 9,
            Self::StagedMediaRoot => 10,
            Self::TranscriptArtifactRoot => 11,
            Self::LegacyTranscriptRoot => 12,
            Self::ChapterArtifactRoot => 13,
            Self::MigrationBackupRoot => 14,
            Self::ApplicationStateProjection => 15,
            Self::NativeObservationOutbox => 16,
            Self::NativeObservationLease => 17,
            Self::AgentGeneratedAudioRoot => 18,
            Self::LegacyChatHistoryRoot => 19,
            Self::LegacyWorkflowStore => 20,
            Self::LegacyWorkflowArtifactRoot => 21,
            Self::CostLedger => 22,
            Self::AgentConversationPointer => 23,
            Self::SpotlightIndex => 24,
            Self::NowPlayingProjection => 25,
            Self::ProductSignals => 26,
        }
    }

    /// The stable wire name of the kind.
    pub fn wire_name(self) -> (name: &'static str)
        ensures
            name@ == self.wire(),
    {
        match self {
            Self::CoreSqlite => "core_sqlite",
            Self::CoreWal => "core_wal",
            Self::CoreShm => "core_shm",
            Self::EpisodeSqlite => "episode_sqlite",
            Self::EpisodeWal => "episode_wal",
            Self::EpisodeShm => "episode_shm",
            Self::RecallIndex => "recall_index",
            Self::RecallIndexWal => "recall_index_wal",
            Self::RecallIndexShm => "recall_index_shm",
            Self::DownloadedMediaRoot => "downloaded_media_root",
            Self::StagedMediaRoot => "staged_media_root",
            Self::TranscriptArtifactRoot => "transcript_artifact_root",
            Self::LegacyTranscriptRoot => "legacy_transcript_root",
            Self::ChapterArtifactRoot => "chapter_artifact_root",
            Self::MigrationBackupRoot => "migration_backup_root",
            Self::ApplicationStateProjection => "application_state_projection",
            Self::NativeObservationOutbox => "native_observation_outbox",
            Self::NativeObservationLease => "native_observation_lease",
            Self::AgentGeneratedAudioRoot => "agent_generated_audio_root",
            Self::LegacyChatHistoryRoot => "legacy_chat_history_root",
            Self::LegacyWorkflowStore => "legacy_workflow_store",
            Self::LegacyWorkflowArtifactRoot => "legacy_workflow_artifact_root",
            Self::CostLedger => "cost_ledger",
            Self::AgentConversationPointer => "agent_conversation_pointer",
            Self::SpotlightIndex => "spotlight_index",
            Self::NowPlayingProjection => "now_playing_projection",
            Self::ProductSignals => "product_signals",
        }
    }

    /// The native action identifier of a kind that a native action erases.
    pub open spec fn native_identifier(self) -> Option<Seq<char>> {
        match self {
            Self::AgentConversationPointer => Some("pod0.agent.lastConversationID.v1"@),
            Self::SpotlightIndex => Some("pod0.search.notes,memories,subscriptions,episodes"@),
            Self::NowPlayingProjection => Some("group.com.podcastr.app/now-playing-snapshot.v1"@),
            _ => None,
        }
    }

    /// The identifier of the native action that erases this kind, if a native
    /// action erases it.
    pub fn native_action_identifier(self) -> (identifier: Option<&'static str>)
        ensures
            identifier is Some <==> self.native_identifier() is Some,
            identifier matches Some(id) ==> self.native_identifier() == Some(id@),
    {
        match self {
            Self::AgentConversationPointer => Some("pod0.agent.lastConversationID.v1"),
            Self::SpotlightIndex => Some("pod0.search.notes,memories,subscriptions,episodes"),
            Self::NowPlayingProjection => Some("group.com.podcastr.app/now-playing-snapshot.v1"),
            _ => None,
        }
    }

    /// Whether more than one target of this kind may appear in an inventory.
    pub open spec fn multiple_allowed(self) -> bool {
        self == Self::MigrationBackupRoot
    }

    /// Whether more than one target of this kind may appear in an inventory.
    pub fn allows_multiple_targets(self) -> (allowed: bool)
        ensures
            allowed == self.multiple_allowed(),
    {
        match self {
            Self::MigrationBackupRoot => true,
            _ => false,
        }
    }

    /// The kind whose filesystem target also erases this kind, if any.
    pub open spec fn covering(self) -> Option<Self> {
        match self {
            Self::TranscriptArtifactRoot | Self::ChapterArtifactRoot => Some(Self::CoreSqlite),
            Self::LegacyWorkflowStore => Some(Self::EpisodeSqlite),
            _ => None,
        }
    }

    /// The kind whose filesystem target also erases this kind, if any.
    pub fn covering_kind(self) -> (covering: Option<Self>)
        ensures
            covering == self.covering(),
    {
        match self {
            Self::TranscriptArtifactRoot | Self::ChapterArtifactRoot => Some(Self::CoreSqlite),
            Self::LegacyWorkflowStore => Some(Self::EpisodeSqlite),
            _ => None,
        }
    }

    /// Reads a kind back from its wire name; any other name is refused.
    pub fn from_wire_name(name: &str) -> (kind: Option<Self>)
        ensures
            kind matches Some(k) ==> k.wire() == name@,
            kind is None ==> forall|k: Self| k.wire() != name@,
            forall|k: Self| k.wire() == name@ ==> kind == Some(k),
    {
        let wanted = chars_of(name);
        let mut i: usize = 0;
        while i < KIND_COUNT
            invariant
                wanted@ == name@,
                i <= KIND_COUNT,
                forall|j: nat| j < i ==> #[trigger] Self::at_rank(j).wire() != name@,
            decreases KIND_COUNT - i,
        {
            let k = Self::ALL[i];
            assert(k == Self::at_rank(i as nat));
            let candidate = chars_of(k.wire_name());
            if chars_eq(&candidate, &wanted) {
                proof {
                    assert forall|other: Self| other.wire() == name@ implies Some(k) == Some(other) by {
                        lemma_wire_injective(k, other);
                    }
                }
                return Some(k);
            }
            i = i + 1;
        }
        proof {
            assert forall|k: Self| k.wire() != name@ by {
                lemma_at_rank_of_rank(k);
                assert(Self::at_rank(k.rank()).wire() != name@);
            }
        }
        None
    }
}

/// Reading a kind's declaration position back gives the kind.
pub proof fn lemma_at_rank_of_rank(k: UserDataTargetKind)
    ensures
        UserDataTargetKind::at_rank(k.rank()) == k,
        k.rank() < 27,
{
}

/// Length, first character and third-to-last character of each wire name;
/// these three already tell all wire names apart.
spec fn wire_signature(k: UserDataTargetKind) -> (nat, char, char) {
    match k {
        UserDataTargetKind::CoreSqlite => (11, 'c', 'i'),
        UserDataTargetKind::CoreWal => (8, 'c', 'w'),
        UserDataTargetKind::CoreShm => (8, 'c', 's'),
        UserDataTargetKind::EpisodeSqlite => (14, 'e', 'i'),
        UserDataTargetKind::EpisodeWal => (11, 'e', 'w'),
        UserDataTargetKind::EpisodeShm => (11, 'e', 's'),
        UserDataTargetKind::RecallIndex => (12, 'r', 'd'),
        UserDataTargetKind::RecallIndexWal => (16, 'r', 'w'),
        UserDataTargetKind::RecallIndexShm => (16, 'r', 's'),
        UserDataTargetKind::DownloadedMediaRoot => (21, 'd', 'o'),
        UserDataTargetKind::StagedMediaRoot => (17, 's', 'o'),
        UserDataTargetKind::TranscriptArtifactRoot => (24, 't', 'o'),
        UserDataTargetKind::LegacyTranscriptRoot => (22, 'l', 'o'),
        UserDataTargetKind::ChapterArtifactRoot => (21, 'c', 'o'),
        UserDataTargetKind::MigrationBackupRoot => (21, 'm', 'o'),
        UserDataTargetKind::ApplicationStateProjection => (28, 'a', 'i'),
        UserDataTargetKind::NativeObservationOutbox => (25, 'n', 'b'),
        UserDataTargetKind::NativeObservationLease => (24, 'n', 'a'),
        UserDataTargetKind::AgentGeneratedAudioRoot => (26, 'a', 'o'),
        UserDataTargetKind::LegacyChatHistoryRoot => (24, 'l', 'o'),
        UserDataTargetKind::LegacyWorkflowStore => (21, 'l', 'o'),
        UserDataTargetKind::LegacyWorkflowArtifactRoot => (29, 'l', 'o'),
        UserDataTargetKind::CostLedger => (11, 'c', 'g'),
        UserDataTargetKind::AgentConversationPointer => (26, 'a', 't'),
        UserDataTargetKind::SpotlightIndex => (15, 's', 'd'),
        UserDataTargetKind::NowPlayingProjection => (22, 'n', 'i'),
        UserDataTargetKind::ProductSignals => (15, 'p', 'a'),
    }
}

proof fn lemma_wire_signature(k: UserDataTargetKind)
    ensures
        k.wire().len() == wire_signature(k).0,
        k.wire()[0] == wire_signature(k).1,
        k.wire()[k.wire().len() - 3] == wire_signature(k).2,
{
    match k {
        UserDataTargetKind::CoreSqlite => {
            reveal_strlit("core_sqlite");
        },
        UserDataTargetKind::CoreWal => {
            reveal_strlit("core_wal");
        },
        UserDataTargetKind::CoreShm => {
            reveal_strlit("core_shm");
        },
        UserDataTargetKind::EpisodeSqlite => {
            reveal_strlit("episode_sqlite");
        },
        UserDataTargetKind::EpisodeWal => {
            reveal_strlit("episode_wal");
        },
        UserDataTargetKind::EpisodeShm => {
            reveal_strlit("episode_shm");
        },
        UserDataTargetKind::RecallIndex => {
            reveal_strlit("recall_index");
        },
        UserDataTargetKind::RecallIndexWal => {
            reveal_strlit("recall_index_wal");
        },
        UserDataTargetKind::RecallIndexShm => {
            reveal_strlit("recall_index_shm");
        },
        UserDataTargetKind::DownloadedMediaRoot => {
            reveal_strlit("downloaded_media_root");
        },
        UserDataTargetKind::StagedMediaRoot => {
            reveal_strlit("staged_media_root");
        },
        UserDataTargetKind::TranscriptArtifactRoot => {
            reveal_strlit("transcript_artifact_root");
        },
        UserDataTargetKind::LegacyTranscriptRoot => {
            reveal_strlit("legacy_transcript_root");
        },
        UserDataTargetKind::ChapterArtifactRoot => {
            reveal_strlit("chapter_artifact_root");
        },
        UserDataTargetKind::MigrationBackupRoot => {
            reveal_strlit("migration_backup_root");
        },
        UserDataTargetKind::ApplicationStateProjection => {
            reveal_strlit("application_state_projection");
        },
        UserDataTargetKind::NativeObservationOutbox => {
            reveal_strlit("native_observation_outbox");
        },
        UserDataTargetKind::NativeObservationLease => {
            reveal_strlit("native_observation_lease");
        },
        UserDataTargetKind::AgentGeneratedAudioRoot => {
            reveal_strlit("agent_generated_audio_root");
        },
        UserDataTargetKind::LegacyChatHistoryRoot => {
            reveal_strlit("legacy_chat_history_root");
        },
        UserDataTargetKind::LegacyWorkflowStore => {
            reveal_strlit("legacy_workflow_store");
        },
        UserDataTargetKind::LegacyWorkflowArtifactRoot => {
            reveal_strlit("legacy_workflow_artifact_root");
        },
        UserDataTargetKind::CostLedger => {
            reveal_strlit("cost_ledger");
        },
        UserDataTargetKind::AgentConversationPointer => {
            reveal_strlit("agent_conversation_pointer");
        },
        UserDataTargetKind::SpotlightIndex => {
            reveal_strlit("spotlight_index");
        },
        UserDataTargetKind::NowPlayingProjection => {
            reveal_strlit("now_playing_projection");
        },
        UserDataTargetKind::ProductSignals => {
            reveal_strlit("product_signals");
        },
    }
}

/// Wire names are pairwise distinct, so the wire form of a kind identifies it.
pub proof fn lemma_wire_injective(a: UserDataTargetKind, b: UserDataTargetKind)
    requires
        a.wire() == b.wire(),
    ensures
        a == b,
{
    lemma_wire_signature(a);
    lemma_wire_signature(b);
}


/// Migration backup roots are the one kind that may be listed more than
/// once.
pub proof fn lemma_only_backup_roots_repeat(k: UserDataTargetKind)
    ensures
        k.multiple_allowed() <==> k == UserDataTargetKind::MigrationBackupRoot,
{
}

} // verus!
