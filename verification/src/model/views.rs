//! What the values of the federation stand for.
use vstd::prelude::*;

use crate::council::{Ballot, Council, Feedback, Proposal};
use crate::devices::Invitation;
use crate::governance::{
    Action, ConnectionHealth, ConsensusPeer, League, Member, Phase, Route, Rules, Seat, State, Team,
};
use crate::order::Duplicate;
use crate::season::{Dispute, Resolution, Schedule, Season};

verus! {

/// A text, as a sequence of characters.
pub type Text = Seq<char>;

/// What a [`ConsensusPeer`] stands for.
#[verifier::ext_equal]
pub struct ConsensusPeerView {
    pub peer: Text,
    pub addresses: Seq<Text>,
}

impl DeepView for ConsensusPeer {
    type V = ConsensusPeerView;

    open spec fn deep_view(&self) -> ConsensusPeerView {
        ConsensusPeerView {
            peer: self.peer@,
            addresses: self.addresses.deep_view(),
        }
    }
}

impl View for ConsensusPeer {
    type V = ConsensusPeerView;

    open spec fn view(&self) -> ConsensusPeerView {
        self.deep_view()
    }
}

impl Duplicate for ConsensusPeer {
    fn duplicate(&self) -> (r: Self) {
        ConsensusPeer {
            peer: self.peer.clone(),
            addresses: self.addresses.duplicate(),
        }
    }
}

impl Clone for ConsensusPeer {
    fn clone(&self) -> (r: Self)
        ensures
            r@ == self@,
    {
        self.duplicate()
    }
}

/// What a [`Member`] stands for.
#[verifier::ext_equal]
pub struct MemberView {
    pub club: Text,
    pub device: Text,
    pub additional_devices: Set<Text>,
}

impl DeepView for Member {
    type V = MemberView;

    open spec fn deep_view(&self) -> MemberView {
        MemberView {
            club: self.club@,
            device: self.device@,
            additional_devices: self.additional_devices@,
        }
    }
}

impl View for Member {
    type V = MemberView;

    open spec fn view(&self) -> MemberView {
        self.deep_view()
    }
}

impl Duplicate for Member {
    fn duplicate(&self) -> (r: Self) {
        Member {
            club: self.club.clone(),
            device: self.device.clone(),
            additional_devices: self.additional_devices.duplicate(),
        }
    }
}

impl Clone for Member {
    fn clone(&self) -> (r: Self)
        ensures
            r@ == self@,
    {
        self.duplicate()
    }
}

impl DeepView for Rules {
    type V = Rules;

    open spec fn deep_view(&self) -> Rules {
        *self
    }
}

impl Duplicate for Rules {
    fn duplicate(&self) -> (r: Self) {
        *self
    }
}

/// What a [`Team`] stands for.
#[verifier::ext_equal]
pub struct TeamView {
    pub captain: Text,
    pub members: Set<Text>,
    pub invited: Set<Text>,
    pub registered: bool,
}

impl DeepView for Team {
    type V = TeamView;

    open spec fn deep_view(&self) -> TeamView {
        TeamView {
            captain: self.captain@,
            members: self.members@,
            invited: self.invited@,
            registered: self.registered,
        }
    }
}

impl View for Team {
    type V = TeamView;

    open spec fn view(&self) -> TeamView {
        self.deep_view()
    }
}

impl Duplicate for Team {
    fn duplicate(&self) -> (r: Self) {
        Team {
            captain: self.captain.clone(),
            members: self.members.duplicate(),
            invited: self.invited.duplicate(),
            registered: self.registered,
        }
    }
}

impl Clone for Team {
    fn clone(&self) -> (r: Self)
        ensures
            r@ == self@,
    {
        self.duplicate()
    }
}

impl DeepView for Phase {
    type V = Phase;

    open spec fn deep_view(&self) -> Phase {
        *self
    }
}

impl Duplicate for Phase {
    fn duplicate(&self) -> (r: Self) {
        *self
    }
}

/// What a [`Seat`] stands for.
#[verifier::ext_equal]
pub struct SeatView {
    pub player: Text,
    pub epoch: u64,
    pub disconnected_until: Option<u64>,
}

impl DeepView for Seat {
    type V = SeatView;

    open spec fn deep_view(&self) -> SeatView {
        SeatView {
            player: self.player@,
            epoch: self.epoch,
            disconnected_until: self.disconnected_until,
        }
    }
}

impl View for Seat {
    type V = SeatView;

    open spec fn view(&self) -> SeatView {
        self.deep_view()
    }
}

impl Duplicate for Seat {
    fn duplicate(&self) -> (r: Self) {
        Seat {
            player: self.player.clone(),
            epoch: self.epoch,
            disconnected_until: self.disconnected_until,
        }
    }
}

impl Clone for Seat {
    fn clone(&self) -> (r: Self)
        ensures
            r@ == self@,
    {
        self.duplicate()
    }
}

impl DeepView for ConnectionHealth {
    type V = ConnectionHealth;

    open spec fn deep_view(&self) -> ConnectionHealth {
        *self
    }
}

impl Duplicate for ConnectionHealth {
    fn duplicate(&self) -> (r: Self) {
        *self
    }
}

/// What a [`League`] stands for.
#[verifier::ext_equal]
pub struct LeagueView {
    pub rules: Rules,
    pub organizer: Text,
    pub host: Text,
    pub scorer: Text,
    pub phase: Phase,
    pub teams: Map<Text, TeamView>,
    pub online: Set<Text>,
    pub seats: Map<Text, Seq<SeatView>>,
    pub played: Set<Text>,
    pub player_scores: Map<Text, i64>,
    pub team_scores: Map<Text, i64>,
    pub score_events: Map<Text, Text>,
    pub paused_since: Option<u64>,
    pub schedule: Option<Schedule>,
    pub manual_pause: bool,
    pub infrastructure_down: bool,
    pub random_seed: Seq<u8>,
    pub draw: u64,
    pub epoch: u64,
    pub health: Map<Text, ConnectionHealth>,
}

impl DeepView for League {
    type V = LeagueView;

    open spec fn deep_view(&self) -> LeagueView {
        LeagueView {
            rules: self.rules,
            organizer: self.organizer@,
            host: self.host@,
            scorer: self.scorer@,
            phase: self.phase,
            teams: self.teams@,
            online: self.online@,
            seats: self.seats@,
            played: self.played@,
            player_scores: self.player_scores@,
            team_scores: self.team_scores@,
            score_events: self.score_events@,
            paused_since: self.paused_since,
            schedule: self.schedule,
            manual_pause: self.manual_pause,
            infrastructure_down: self.infrastructure_down,
            random_seed: self.random_seed@,
            draw: self.draw,
            epoch: self.epoch,
            health: self.health@,
        }
    }
}

impl View for League {
    type V = LeagueView;

    open spec fn view(&self) -> LeagueView {
        self.deep_view()
    }
}

impl Duplicate for League {
    fn duplicate(&self) -> (r: Self) {
        League {
            rules: self.rules,
            organizer: self.organizer.clone(),
            host: self.host.clone(),
            scorer: self.scorer.clone(),
            phase: self.phase,
            teams: self.teams.duplicate(),
            online: self.online.duplicate(),
            seats: self.seats.duplicate(),
            played: self.played.duplicate(),
            player_scores: self.player_scores.duplicate(),
            team_scores: self.team_scores.duplicate(),
            score_events: self.score_events.duplicate(),
            paused_since: self.paused_since,
            schedule: self.schedule,
            manual_pause: self.manual_pause,
            infrastructure_down: self.infrastructure_down,
            random_seed: self.random_seed,
            draw: self.draw,
            epoch: self.epoch,
            health: self.health.duplicate(),
        }
    }
}

impl Clone for League {
    fn clone(&self) -> (r: Self)
        ensures
            r@ == self@,
    {
        self.duplicate()
    }
}

/// What a [`State`] stands for.
#[verifier::ext_equal]
pub struct StateView {
    pub revision: u64,
    pub admins: Set<Text>,
    pub members: Map<Text, MemberView>,
    pub leagues: Map<Text, LeagueView>,
    pub clock_ms: u64,
    pub council: Option<CouncilView>,
    pub consensus_members: Map<u64, ConsensusPeerView>,
    pub retired_consensus_ids: Set<u64>,
    pub proposals: Map<Text, ProposalView>,
    pub ballots: Map<Text, BallotView>,
    pub feedback: Map<Text, FeedbackView>,
    pub seasons: Map<Text, SeasonView>,
    pub disputes: Map<Text, DisputeView>,
    pub device_invitations: Map<Text, InvitationView>,
    pub revoked_devices: Set<Text>,
}

impl DeepView for State {
    type V = StateView;

    open spec fn deep_view(&self) -> StateView {
        StateView {
            revision: self.revision,
            admins: self.admins@,
            members: self.members@,
            leagues: self.leagues@,
            clock_ms: self.clock_ms,
            council: self.council.deep_view(),
            consensus_members: self.consensus_members@,
            retired_consensus_ids: self.retired_consensus_ids@,
            proposals: self.proposals@,
            ballots: self.ballots@,
            feedback: self.feedback@,
            seasons: self.seasons@,
            disputes: self.disputes@,
            device_invitations: self.device_invitations@,
            revoked_devices: self.revoked_devices@,
        }
    }
}

impl View for State {
    type V = StateView;

    open spec fn view(&self) -> StateView {
        self.deep_view()
    }
}

impl Duplicate for State {
    fn duplicate(&self) -> (r: Self) {
        State {
            revision: self.revision,
            admins: self.admins.duplicate(),
            members: self.members.duplicate(),
            leagues: self.leagues.duplicate(),
            clock_ms: self.clock_ms,
            council: self.council.duplicate(),
            consensus_members: self.consensus_members.duplicate(),
            retired_consensus_ids: self.retired_consensus_ids.duplicate(),
            proposals: self.proposals.duplicate(),
            ballots: self.ballots.duplicate(),
            feedback: self.feedback.duplicate(),
            seasons: self.seasons.duplicate(),
            disputes: self.disputes.duplicate(),
            device_invitations: self.device_invitations.duplicate(),
            revoked_devices: self.revoked_devices.duplicate(),
        }
    }
}

impl Clone for State {
    fn clone(&self) -> (r: Self)
        ensures
            r@ == self@,
    {
        self.duplicate()
    }
}

/// What an [`Action`] stands for.
pub enum ActionView {
    InviteMemberDevice { id: Text, device: Text, expires_ms: u64 },
    AcceptMemberDevice { id: Text },
    RevokeMemberDevice { device: Text },
    CreateSeason { id: Text, title: Text },
    ScheduleLeague { season: Text, league: Text, schedule: Schedule },
    PauseLeague { league: Text, paused: bool },
    DisputeResult { id: Text, league: Text, reason: Text },
    ResolveDispute { id: Text, response: Text, players: Map<Text, i64>, teams: Map<Text, i64> },
    SetConsensusMembers { members: Map<u64, ConsensusPeerView> },
    InstallCouncil { council: CouncilView },
    UpdateCouncil { council: CouncilView },
    Propose { id: Text, action: Box<ActionView>, expires_ms: u64 },
    ApproveProposal { id: Text },
    ExecuteProposal { id: Text },
    CancelProposal { id: Text },
    CreateBallot { id: Text, title: Text, options: Seq<Text>, closes_ms: u64 },
    MemberVote { id: Text, option: usize },
    SubmitFeedback { id: Text, category: Text, text: Text },
    RespondFeedback { id: Text, text: Text },
    GrantAdmin { device: Text },
    RevokeAdmin { device: Text },
    RotateMemberDevice { member: Text, device: Text },
    Enroll { member: Text, club: Text, device: Text },
    CreateLeague { league: Text, rules: Rules, host: Text, scorer: Text },
    CreateTeam { league: Text, team: Text },
    Invite { league: Text, team: Text, member: Text },
    Accept { league: Text, team: Text },
    Register { league: Text, team: Text },
    Presence { league: Text, member: Text, online: bool, health: ConnectionHealth },
    Start { league: Text, seed: Seq<u8> },
    Tick { league: Text },
    Infrastructure { league: Text, healthy: bool },
    Score { league: Text, event: Text, players: Map<Text, i64>, teams: Map<Text, i64> },
    Finish { league: Text },
}

impl Action {
    /// What the value stands for.
    pub open spec fn model(&self) -> ActionView
        decreases self,
    {
        match self {
            Action::InviteMemberDevice { id, device, expires_ms } => ActionView::InviteMemberDevice { id: id@, device: device@, expires_ms: *expires_ms },
            Action::AcceptMemberDevice { id } => ActionView::AcceptMemberDevice { id: id@ },
            Action::RevokeMemberDevice { device } => ActionView::RevokeMemberDevice { device: device@ },
            Action::CreateSeason { id, title } => ActionView::CreateSeason { id: id@, title: title@ },
            Action::ScheduleLeague { season, league, schedule } => ActionView::ScheduleLeague { season: season@, league: league@, schedule: *schedule },
            Action::PauseLeague { league, paused } => ActionView::PauseLeague { league: league@, paused: *paused },
            Action::DisputeResult { id, league, reason } => ActionView::DisputeResult { id: id@, league: league@, reason: reason@ },
            Action::ResolveDispute { id, response, players, teams } => ActionView::ResolveDispute { id: id@, response: response@, players: players@, teams: teams@ },
            Action::SetConsensusMembers { members } => ActionView::SetConsensusMembers { members: members@ },
            Action::InstallCouncil { council } => ActionView::InstallCouncil { council: council.deep_view() },
            Action::UpdateCouncil { council } => ActionView::UpdateCouncil { council: council.deep_view() },
            Action::Propose { id, action, expires_ms } => ActionView::Propose { id: id@, action: Box::new(action.model()), expires_ms: *expires_ms },
            Action::ApproveProposal { id } => ActionView::ApproveProposal { id: id@ },
            Action::ExecuteProposal { id } => ActionView::ExecuteProposal { id: id@ },
            Action::CancelProposal { id } => ActionView::CancelProposal { id: id@ },
            Action::CreateBallot { id, title, options, closes_ms } => ActionView::CreateBallot { id: id@, title: title@, options: options.deep_view(), closes_ms: *closes_ms },
            Action::MemberVote { id, option } => ActionView::MemberVote { id: id@, option: *option },
            Action::SubmitFeedback { id, category, text } => ActionView::SubmitFeedback { id: id@, category: category@, text: text@ },
            Action::RespondFeedback { id, text } => ActionView::RespondFeedback { id: id@, text: text@ },
            Action::GrantAdmin { device } => ActionView::GrantAdmin { device: device@ },
            Action::RevokeAdmin { device } => ActionView::RevokeAdmin { device: device@ },
            Action::RotateMemberDevice { member, device } => ActionView::RotateMemberDevice { member: member@, device: device@ },
            Action::Enroll { member, club, device } => ActionView::Enroll { member: member@, club: club@, device: device@ },
            Action::CreateLeague { league, rules, host, scorer } => ActionView::CreateLeague { league: league@, rules: *rules, host: host@, scorer: scorer@ },
            Action::CreateTeam { league, team } => ActionView::CreateTeam { league: league@, team: team@ },
            Action::Invite { league, team, member } => ActionView::Invite { league: league@, team: team@, member: member@ },
            Action::Accept { league, team } => ActionView::Accept { league: league@, team: team@ },
            Action::Register { league, team } => ActionView::Register { league: league@, team: team@ },
            Action::Presence { league, member, online, health } => ActionView::Presence { league: league@, member: member@, online: *online, health: *health },
            Action::Start { league, seed } => ActionView::Start { league: league@, seed: seed@ },
            Action::Tick { league } => ActionView::Tick { league: league@ },
            Action::Infrastructure { league, healthy } => ActionView::Infrastructure { league: league@, healthy: *healthy },
            Action::Score { league, event, players, teams } => ActionView::Score { league: league@, event: event@, players: players@, teams: teams@ },
            Action::Finish { league } => ActionView::Finish { league: league@ },
        }
    }
}

impl DeepView for Action {
    type V = ActionView;

    open spec fn deep_view(&self) -> ActionView {
        self.model()
    }
}

impl View for Action {
    type V = ActionView;

    open spec fn view(&self) -> ActionView {
        self.model()
    }
}

impl Action {
    fn copy(&self) -> (r: Self)
        ensures
            r@ == self@,
        decreases self,
    {
        match self {
            Action::InviteMemberDevice { id, device, expires_ms } => Action::InviteMemberDevice { id: id.clone(), device: device.clone(), expires_ms: *expires_ms },
            Action::AcceptMemberDevice { id } => Action::AcceptMemberDevice { id: id.clone() },
            Action::RevokeMemberDevice { device } => Action::RevokeMemberDevice { device: device.clone() },
            Action::CreateSeason { id, title } => Action::CreateSeason { id: id.clone(), title: title.clone() },
            Action::ScheduleLeague { season, league, schedule } => Action::ScheduleLeague { season: season.clone(), league: league.clone(), schedule: *schedule },
            Action::PauseLeague { league, paused } => Action::PauseLeague { league: league.clone(), paused: *paused },
            Action::DisputeResult { id, league, reason } => Action::DisputeResult { id: id.clone(), league: league.clone(), reason: reason.clone() },
            Action::ResolveDispute { id, response, players, teams } => Action::ResolveDispute { id: id.clone(), response: response.clone(), players: players.duplicate(), teams: teams.duplicate() },
            Action::SetConsensusMembers { members } => Action::SetConsensusMembers { members: members.duplicate() },
            Action::InstallCouncil { council } => Action::InstallCouncil { council: council.duplicate() },
            Action::UpdateCouncil { council } => Action::UpdateCouncil { council: council.duplicate() },
            Action::Propose { id, action, expires_ms } => Action::Propose { id: id.clone(), action: Box::new(action.copy()), expires_ms: *expires_ms },
            Action::ApproveProposal { id } => Action::ApproveProposal { id: id.clone() },
            Action::ExecuteProposal { id } => Action::ExecuteProposal { id: id.clone() },
            Action::CancelProposal { id } => Action::CancelProposal { id: id.clone() },
            Action::CreateBallot { id, title, options, closes_ms } => Action::CreateBallot { id: id.clone(), title: title.clone(), options: options.duplicate(), closes_ms: *closes_ms },
            Action::MemberVote { id, option } => Action::MemberVote { id: id.clone(), option: *option },
            Action::SubmitFeedback { id, category, text } => Action::SubmitFeedback { id: id.clone(), category: category.clone(), text: text.clone() },
            Action::RespondFeedback { id, text } => Action::RespondFeedback { id: id.clone(), text: text.clone() },
            Action::GrantAdmin { device } => Action::GrantAdmin { device: device.clone() },
            Action::RevokeAdmin { device } => Action::RevokeAdmin { device: device.clone() },
            Action::RotateMemberDevice { member, device } => Action::RotateMemberDevice { member: member.clone(), device: device.clone() },
            Action::Enroll { member, club, device } => Action::Enroll { member: member.clone(), club: club.clone(), device: device.clone() },
            Action::CreateLeague { league, rules, host, scorer } => Action::CreateLeague { league: league.clone(), rules: *rules, host: host.clone(), scorer: scorer.clone() },
            Action::CreateTeam { league, team } => Action::CreateTeam { league: league.clone(), team: team.clone() },
            Action::Invite { league, team, member } => Action::Invite { league: league.clone(), team: team.clone(), member: member.clone() },
            Action::Accept { league, team } => Action::Accept { league: league.clone(), team: team.clone() },
            Action::Register { league, team } => Action::Register { league: league.clone(), team: team.clone() },
            Action::Presence { league, member, online, health } => Action::Presence { league: league.clone(), member: member.clone(), online: *online, health: *health },
            Action::Start { league, seed } => Action::Start { league: league.clone(), seed: *seed },
            Action::Tick { league } => Action::Tick { league: league.clone() },
            Action::Infrastructure { league, healthy } => Action::Infrastructure { league: league.clone(), healthy: *healthy },
            Action::Score { league, event, players, teams } => Action::Score { league: league.clone(), event: event.clone(), players: players.duplicate(), teams: teams.duplicate() },
            Action::Finish { league } => Action::Finish { league: league.clone() },
        }
    }
}

impl Duplicate for Action {
    fn duplicate(&self) -> (r: Self) {
        self.copy()
    }
}

impl Clone for Action {
    fn clone(&self) -> (r: Self)
        ensures
            r@ == self@,
    {
        self.duplicate()
    }
}

/// What an [`Route`] stands for.
pub enum RouteView {
    Match { team: Text, epoch: u64 },
    Waiting,
    Unavailable,
}

impl Route {
    /// What the value stands for.
    pub open spec fn model(&self) -> RouteView
        decreases self,
    {
        match self {
            Route::Match { team, epoch } => RouteView::Match { team: team@, epoch: *epoch },
            Route::Waiting => RouteView::Waiting,
            Route::Unavailable => RouteView::Unavailable,
        }
    }
}

impl DeepView for Route {
    type V = RouteView;

    open spec fn deep_view(&self) -> RouteView {
        self.model()
    }
}

impl View for Route {
    type V = RouteView;

    open spec fn view(&self) -> RouteView {
        self.model()
    }
}

impl Route {
    fn copy(&self) -> (r: Self)
        ensures
            r@ == self@,
        decreases self,
    {
        match self {
            Route::Match { team, epoch } => Route::Match { team: team.clone(), epoch: *epoch },
            Route::Waiting => Route::Waiting,
            Route::Unavailable => Route::Unavailable,
        }
    }
}

impl Duplicate for Route {
    fn duplicate(&self) -> (r: Self) {
        self.copy()
    }
}

impl Clone for Route {
    fn clone(&self) -> (r: Self)
        ensures
            r@ == self@,
    {
        self.duplicate()
    }
}

/// What a [`Council`] stands for.
#[verifier::ext_equal]
pub struct CouncilView {
    pub epoch: u64,
    pub schools: Map<Text, Set<Text>>,
    pub quorum: usize,
    pub change_quorum: usize,
    pub cooldown_ms: u64,
}

impl DeepView for Council {
    type V = CouncilView;

    open spec fn deep_view(&self) -> CouncilView {
        CouncilView {
            epoch: self.epoch,
            schools: self.schools@,
            quorum: self.quorum,
            change_quorum: self.change_quorum,
            cooldown_ms: self.cooldown_ms,
        }
    }
}

impl View for Council {
    type V = CouncilView;

    open spec fn view(&self) -> CouncilView {
        self.deep_view()
    }
}

impl Duplicate for Council {
    fn duplicate(&self) -> (r: Self) {
        Council {
            epoch: self.epoch,
            schools: self.schools.duplicate(),
            quorum: self.quorum,
            change_quorum: self.change_quorum,
            cooldown_ms: self.cooldown_ms,
        }
    }
}

impl Clone for Council {
    fn clone(&self) -> (r: Self)
        ensures
            r@ == self@,
    {
        self.duplicate()
    }
}

/// What a [`Proposal`] stands for.
#[verifier::ext_equal]
pub struct ProposalView {
    pub proposer: Text,
    pub action: ActionView,
    pub epoch: u64,
    pub created_ms: u64,
    pub expires_ms: u64,
    pub approvals: Map<Text, Text>,
    pub executed: bool,
    pub cancelled: bool,
}

impl DeepView for Proposal {
    type V = ProposalView;

    open spec fn deep_view(&self) -> ProposalView {
        ProposalView {
            proposer: self.proposer@,
            action: self.action.deep_view(),
            epoch: self.epoch,
            created_ms: self.created_ms,
            expires_ms: self.expires_ms,
            approvals: self.approvals@,
            executed: self.executed,
            cancelled: self.cancelled,
        }
    }
}

impl View for Proposal {
    type V = ProposalView;

    open spec fn view(&self) -> ProposalView {
        self.deep_view()
    }
}

impl Duplicate for Proposal {
    fn duplicate(&self) -> (r: Self) {
        Proposal {
            proposer: self.proposer.clone(),
            action: self.action.duplicate(),
            epoch: self.epoch,
            created_ms: self.created_ms,
            expires_ms: self.expires_ms,
            approvals: self.approvals.duplicate(),
            executed: self.executed,
            cancelled: self.cancelled,
        }
    }
}

impl Clone for Proposal {
    fn clone(&self) -> (r: Self)
        ensures
            r@ == self@,
    {
        self.duplicate()
    }
}

/// What a [`Ballot`] stands for.
#[verifier::ext_equal]
pub struct BallotView {
    pub title: Text,
    pub options: Seq<Text>,
    pub closes_ms: u64,
    pub electorate: Set<Text>,
    pub votes: Map<Text, usize>,
}

impl DeepView for Ballot {
    type V = BallotView;

    open spec fn deep_view(&self) -> BallotView {
        BallotView {
            title: self.title@,
            options: self.options.deep_view(),
            closes_ms: self.closes_ms,
            electorate: self.electorate@,
            votes: self.votes@,
        }
    }
}

impl View for Ballot {
    type V = BallotView;

    open spec fn view(&self) -> BallotView {
        self.deep_view()
    }
}

impl Duplicate for Ballot {
    fn duplicate(&self) -> (r: Self) {
        Ballot {
            title: self.title.clone(),
            options: self.options.duplicate(),
            closes_ms: self.closes_ms,
            electorate: self.electorate.duplicate(),
            votes: self.votes.duplicate(),
        }
    }
}

impl Clone for Ballot {
    fn clone(&self) -> (r: Self)
        ensures
            r@ == self@,
    {
        self.duplicate()
    }
}

/// What a [`Feedback`] stands for.
#[verifier::ext_equal]
pub struct FeedbackView {
    pub member: Text,
    pub category: Text,
    pub text: Text,
    pub created_ms: u64,
    pub response: Option<Text>,
}

impl DeepView for Feedback {
    type V = FeedbackView;

    open spec fn deep_view(&self) -> FeedbackView {
        FeedbackView {
            member: self.member@,
            category: self.category@,
            text: self.text@,
            created_ms: self.created_ms,
            response: self.response.deep_view(),
        }
    }
}

impl View for Feedback {
    type V = FeedbackView;

    open spec fn view(&self) -> FeedbackView {
        self.deep_view()
    }
}

impl Duplicate for Feedback {
    fn duplicate(&self) -> (r: Self) {
        Feedback {
            member: self.member.clone(),
            category: self.category.clone(),
            text: self.text.clone(),
            created_ms: self.created_ms,
            response: self.response.duplicate(),
        }
    }
}

impl Clone for Feedback {
    fn clone(&self) -> (r: Self)
        ensures
            r@ == self@,
    {
        self.duplicate()
    }
}

impl DeepView for Schedule {
    type V = Schedule;

    open spec fn deep_view(&self) -> Schedule {
        *self
    }
}

impl Duplicate for Schedule {
    fn duplicate(&self) -> (r: Self) {
        *self
    }
}

/// What a [`Season`] stands for.
#[verifier::ext_equal]
pub struct SeasonView {
    pub title: Text,
    pub leagues: Set<Text>,
}

impl DeepView for Season {
    type V = SeasonView;

    open spec fn deep_view(&self) -> SeasonView {
        SeasonView {
            title: self.title@,
            leagues: self.leagues@,
        }
    }
}

impl View for Season {
    type V = SeasonView;

    open spec fn view(&self) -> SeasonView {
        self.deep_view()
    }
}

impl Duplicate for Season {
    fn duplicate(&self) -> (r: Self) {
        Season {
            title: self.title.clone(),
            leagues: self.leagues.duplicate(),
        }
    }
}

impl Clone for Season {
    fn clone(&self) -> (r: Self)
        ensures
            r@ == self@,
    {
        self.duplicate()
    }
}

/// What a [`Dispute`] stands for.
#[verifier::ext_equal]
pub struct DisputeView {
    pub league: Text,
    pub member: Text,
    pub reason: Text,
    pub created_ms: u64,
    pub resolution: Option<ResolutionView>,
}

impl DeepView for Dispute {
    type V = DisputeView;

    open spec fn deep_view(&self) -> DisputeView {
        DisputeView {
            league: self.league@,
            member: self.member@,
            reason: self.reason@,
            created_ms: self.created_ms,
            resolution: self.resolution.deep_view(),
        }
    }
}

impl View for Dispute {
    type V = DisputeView;

    open spec fn view(&self) -> DisputeView {
        self.deep_view()
    }
}

impl Duplicate for Dispute {
    fn duplicate(&self) -> (r: Self) {
        Dispute {
            league: self.league.clone(),
            member: self.member.clone(),
            reason: self.reason.clone(),
            created_ms: self.created_ms,
            resolution: self.resolution.duplicate(),
        }
    }
}

impl Clone for Dispute {
    fn clone(&self) -> (r: Self)
        ensures
            r@ == self@,
    {
        self.duplicate()
    }
}

/// What a [`Resolution`] stands for.
#[verifier::ext_equal]
pub struct ResolutionView {
    pub reviewer: Text,
    pub time_ms: u64,
    pub response: Text,
    pub players: Map<Text, i64>,
    pub teams: Map<Text, i64>,
}

impl DeepView for Resolution {
    type V = ResolutionView;

    open spec fn deep_view(&self) -> ResolutionView {
        ResolutionView {
            reviewer: self.reviewer@,
            time_ms: self.time_ms,
            response: self.response@,
            players: self.players@,
            teams: self.teams@,
        }
    }
}

impl View for Resolution {
    type V = ResolutionView;

    open spec fn view(&self) -> ResolutionView {
        self.deep_view()
    }
}

impl Duplicate for Resolution {
    fn duplicate(&self) -> (r: Self) {
        Resolution {
            reviewer: self.reviewer.clone(),
            time_ms: self.time_ms,
            response: self.response.clone(),
            players: self.players.duplicate(),
            teams: self.teams.duplicate(),
        }
    }
}

impl Clone for Resolution {
    fn clone(&self) -> (r: Self)
        ensures
            r@ == self@,
    {
        self.duplicate()
    }
}

/// What a [`Invitation`] stands for.
#[verifier::ext_equal]
pub struct InvitationView {
    pub member: Text,
    pub device: Text,
    pub expires_ms: u64,
}

impl DeepView for Invitation {
    type V = InvitationView;

    open spec fn deep_view(&self) -> InvitationView {
        InvitationView {
            member: self.member@,
            device: self.device@,
            expires_ms: self.expires_ms,
        }
    }
}

impl View for Invitation {
    type V = InvitationView;

    open spec fn view(&self) -> InvitationView {
        self.deep_view()
    }
}

impl Duplicate for Invitation {
    fn duplicate(&self) -> (r: Self) {
        Invitation {
            member: self.member.clone(),
            device: self.device.clone(),
            expires_ms: self.expires_ms,
        }
    }
}

impl Clone for Invitation {
    fn clone(&self) -> (r: Self)
        ensures
            r@ == self@,
    {
        self.duplicate()
    }
}

} // verus!
