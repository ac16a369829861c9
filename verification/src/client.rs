use vstd::prelude::*;
use crate::messages::common::WitcherNamespace;
use crate::messages::notifications::{
    ListenToNamespace, ListenToNamespaceParams, ReloadScripts, ScriptsReloadProgress,
};
use crate::messages::requests::{
    ConfigVars, ConfigVarsParams, ConfigVarsParamsView, ConfigVarsResponse, ExecuteCommand,
    ExecuteCommandParams, ExecuteCommandResponse, Opcodes, OpcodesParams, OpcodesParamsView,
    OpcodesResponse, ScriptPackages, ScriptPackagesResponse, ScriptsRootPath,
    ScriptsRootPathResponse,
};
use crate::messages::{
    id_of, packet_of, registered_with, registered_with_server_messages, Message,
};
use crate::protocol::packet::WitcherPacket;
use crate::protocol::packet_data::PacketValue;
use crate::router::{slot_of, RouteDecision, Router, RouterView};

verus! {

/// A call that the state of the client does not allow.
#[derive(Debug, Clone, Copy, PartialEq, Eq, Structural)]
pub enum LifecycleError {
    /// The client has been started before.
    AlreadyStarted,
    /// The client has not been started yet.
    NotStarted,
}

/// The namespaces that a client listens to, in the order in which it asks for them.
pub open spec fn listened_namespaces() -> Seq<WitcherNamespace> {
    seq![
        WitcherNamespace::Config,
        WitcherNamespace::Remote,
        WitcherNamespace::ScriptCompiler,
        WitcherNamespace::ScriptDebugger,
        WitcherNamespace::ScriptProfiler,
        WitcherNamespace::Scripts,
        WitcherNamespace::Utility,
    ]
}

/// The decisions of a client of the game: what it sends, and who handles what comes
/// back. The connection itself, and the handlers that the numbers stand for, are the
/// caller's.
pub struct WitcherClient {
    router: Router,
    started: bool,
}

impl WitcherClient {
    /// Whether the client is in order.
    pub closed spec fn wf(&self) -> bool {
        self.router.wf()
    }

    /// Whether the client has been started and not stopped since.
    pub closed spec fn started(&self) -> bool {
        self.started
    }

    /// What the client's router knows.
    pub closed spec fn routes(&self) -> RouterView {
        self.router@
    }

    /// The identifiers that the client's router knows.
    pub closed spec fn ids(&self) -> Set<Seq<PacketValue>> {
        self.router.ids()
    }

    #[inline]
    pub fn new() -> (client: Self)
        ensures
            client.wf(),
            !client.started(),
            client.routes().raw is None,
            client.routes().registered == Seq::<Seq<PacketValue>>::empty(),
            client.routes().subscribers == Map::<u64, u64>::empty(),
            client.routes().waiters == Map::<u64, Seq<u64>>::empty(),
    {
        Self { router: Router::new(), started: false }
    }

    /// Starts the client: makes the messages of the game known to the router and gives
    /// the packets to send, one for each namespace, that make the game send its
    /// messages.
    ///
    /// Will error if the client was already started before.
    pub fn start(&mut self) -> (r: Result<Vec<WitcherPacket>, LifecycleError>)
        requires
            old(self).wf(),
        ensures
            final(self).wf(),
            final(self).started(),
            final(self).routes().raw == old(self).routes().raw,
            final(self).routes().subscribers == old(self).routes().subscribers,
            final(self).routes().waiters == old(self).routes().waiters,
            old(self).started() ==> r == Err::<Vec<WitcherPacket>, LifecycleError>(
                LifecycleError::AlreadyStarted,
            ) && final(self).routes() == old(self).routes(),
            !old(self).started() ==> r is Ok && r->Ok_0@.len() == 7 && (forall|i: int|
                0 <= i < 7 ==> (#[trigger] r->Ok_0@[i])@ == packet_of::<ListenToNamespace>(
                    listened_namespaces()[i],
                )) && final(self).routes().registered == registered_with_server_messages(
                old(self).routes().registered,
            ) && final(self).ids() == old(self).ids().insert(
                id_of::<ScriptsReloadProgress>(),
            ).insert(id_of::<ScriptsRootPathResponse>()).insert(
                id_of::<ExecuteCommandResponse>(),
            ).insert(id_of::<ScriptPackagesResponse>()).insert(id_of::<OpcodesResponse>()).insert(
                id_of::<ConfigVarsResponse>(),
            ),
    {
        if self.started {
            return Err(LifecycleError::AlreadyStarted);
        }
        self.router.register_server_messages();
        self.started = true;
        Ok(Self::listen_to_all_namespaces())
    }

    pub fn was_started(&self) -> (started: bool)
        ensures
            started == self.started(),
    {
        self.started
    }

    /// Stops the client. The handlers that still wait for a response are given up;
    /// subscribers stay, and hear nothing until the client is started again.
    ///
    /// Will error if the client has not been started yet.
    pub fn stop(&mut self) -> (r: Result<(), LifecycleError>)
        ensures
            final(self).wf() == old(self).wf(),
            !final(self).started(),
            final(self).ids() == old(self).ids(),
            old(self).started() ==> r is Ok && final(self).routes() == (RouterView {
                waiters: Map::empty(),
                ..old(self).routes()
            }),
            !old(self).started() ==> r == Err::<(), LifecycleError>(LifecycleError::NotStarted)
                && final(self).routes() == old(self).routes(),
    {
        if !self.started {
            return Err(LifecycleError::NotStarted);
        }
        self.started = false;
        self.router.abandon_waiters();
        Ok(())
    }

    /// Set the handler that will get every raw packet received from the server.
    #[inline]
    pub fn on_raw_packet(&mut self, callback: u64)
        ensures
            final(self).wf() == old(self).wf(),
            final(self).started() == old(self).started(),
            final(self).ids() == old(self).ids(),
            final(self).routes() == (RouterView { raw: Some(callback), ..old(self).routes() }),
    {
        self.router.set_raw_packet_callback(callback)
    }

    /// The packet that tells the server to recompile scripts.
    #[inline]
    pub fn reload_scripts(&self) -> (packet: WitcherPacket)
        ensures
            packet@ == packet_of::<ReloadScripts>(()),
    {
        ReloadScripts::assemble_packet(())
    }

    /// Set the handler that will get the script recompilation progress notifications
    /// sent from the server, in place of the handler that got them.
    #[inline]
    pub fn on_scripts_reload_progress(&mut self, callback: u64)
        requires
            old(self).wf(),
        ensures
            final(self).wf(),
            final(self).started() == old(self).started(),
            final(self).ids() == old(self).ids().insert(id_of::<ScriptsReloadProgress>()),
            final(self).routes().raw == old(self).routes().raw,
            final(self).routes().waiters == old(self).routes().waiters,
            final(self).routes().registered == registered_with(
                old(self).routes().registered,
                id_of::<ScriptsReloadProgress>(),
            ),
            final(self).routes().subscribers == old(self).routes().subscribers.insert(
                slot_of(final(self).routes().registered, id_of::<ScriptsReloadProgress>()),
                callback,
            ),
    {
        self.router.set_notification_callback::<ScriptsReloadProgress>(callback)
    }

    /// Lets `callback` wait for the path to content0's script root, and gives the
    /// packet that asks for it.
    #[inline]
    pub fn scripts_root_path(&mut self, callback: u64) -> (packet: WitcherPacket)
        requires
            old(self).wf(),
        ensures
            final(self).wf(),
            final(self).started() == old(self).started(),
            packet@ == packet_of::<ScriptsRootPath>(()),
            final(self).routes().registered == registered_with(
                old(self).routes().registered,
                id_of::<ScriptsRootPathResponse>(),
            ),
            final(self).routes() == (RouterView {
                registered: final(self).routes().registered,
                ..old(self).routes().with_waiter(
                    slot_of(final(self).routes().registered, id_of::<ScriptsRootPathResponse>()),
                    callback,
                )
            }),
    {
        self.router.add_response_callback::<ScriptsRootPathResponse>(callback);
        ScriptsRootPath::assemble_packet(())
    }

    /// Lets `callback` wait for the result of an exec function, and gives the packet
    /// that asks the game to run it.
    #[inline]
    pub fn execute_command(&mut self, params: ExecuteCommandParams, callback: u64) -> (packet:
        WitcherPacket)
        requires
            old(self).wf(),
        ensures
            final(self).wf(),
            final(self).started() == old(self).started(),
            packet@ == packet_of::<ExecuteCommand>(params@),
            final(self).routes().registered == registered_with(
                old(self).routes().registered,
                id_of::<ExecuteCommandResponse>(),
            ),
            final(self).routes() == (RouterView {
                registered: final(self).routes().registered,
                ..old(self).routes().with_waiter(
                    slot_of(final(self).routes().registered, id_of::<ExecuteCommandResponse>()),
                    callback,
                )
            }),
    {
        self.router.add_response_callback::<ExecuteCommandResponse>(callback);
        ExecuteCommand::assemble_packet(params)
    }

    /// Lets `callback` wait for the script packages detected by the game (vanilla and
    /// modded), and gives the packet that asks for them.
    #[inline]
    pub fn script_packages(&mut self, callback: u64) -> (packet: WitcherPacket)
        requires
            old(self).wf(),
        ensures
            final(self).wf(),
            final(self).started() == old(self).started(),
            packet@ == packet_of::<ScriptPackages>(()),
            final(self).routes().registered == registered_with(
                old(self).routes().registered,
                id_of::<ScriptPackagesResponse>(),
            ),
            final(self).routes() == (RouterView {
                registered: final(self).routes().registered,
                ..old(self).routes().with_waiter(
                    slot_of(final(self).routes().registered, id_of::<ScriptPackagesResponse>()),
                    callback,
                )
            }),
    {
        self.router.add_response_callback::<ScriptPackagesResponse>(callback);
        ScriptPackages::assemble_packet(())
    }

    /// Lets `callback` wait for the breakdown of opcodes in a function, and gives the
    /// packet that asks for it.
    #[inline]
    pub fn opcodes(&mut self, params: OpcodesParams, callback: u64) -> (packet: WitcherPacket)
        requires
            old(self).wf(),
        ensures
            final(self).wf(),
            final(self).started() == old(self).started(),
            packet@ == packet_of::<Opcodes>(params@),
            final(self).routes().registered == registered_with(
                old(self).routes().registered,
                id_of::<OpcodesResponse>(),
            ),
            final(self).routes() == (RouterView {
                registered: final(self).routes().registered,
                ..old(self).routes().with_waiter(
                    slot_of(final(self).routes().registered, id_of::<OpcodesResponse>()),
                    callback,
                )
            }),
    {
        self.router.add_response_callback::<OpcodesResponse>(callback);
        Opcodes::assemble_packet(params)
    }

    /// Lets `callback` wait for the list of internal configuration vars, and gives the
    /// packet that asks for it.
    #[inline]
    pub fn config_vars(&mut self, params: ConfigVarsParams, callback: u64) -> (packet:
        WitcherPacket)
        requires
            old(self).wf(),
        ensures
            final(self).wf(),
            final(self).started() == old(self).started(),
            packet@ == packet_of::<ConfigVars>(params@),
            final(self).routes().registered == registered_with(
                old(self).routes().registered,
                id_of::<ConfigVarsResponse>(),
            ),
            final(self).routes() == (RouterView {
                registered: final(self).routes().registered,
                ..old(self).routes().with_waiter(
                    slot_of(final(self).routes().registered, id_of::<ConfigVarsResponse>()),
                    callback,
                )
            }),
    {
        self.router.add_response_callback::<ConfigVarsResponse>(callback);
        ConfigVars::assemble_packet(params)
    }

    /// Decides who handles a packet that came from the server.
    pub fn accept_packet(&mut self, packet: &WitcherPacket) -> (decision: RouteDecision)
        requires
            old(self).wf(),
        ensures
            final(self).wf(),
            final(self).started() == old(self).started(),
            final(self).ids() == old(self).ids(),
            decision.raw == old(self).routes().raw,
            decision.delivery == old(self).routes().delivery_of(packet@),
            final(self).routes() == old(self).routes().after_routing(packet@),
    {
        self.router.route(packet)
    }

    /// The packet that tells the server to send back the messages of a namespace.
    /// This is necessary for responses to be received by the client.
    #[inline]
    pub fn listen_to_namespace(params: ListenToNamespaceParams) -> (packet: WitcherPacket)
        ensures
            packet@ == packet_of::<ListenToNamespace>(params@),
    {
        ListenToNamespace::assemble_packet(params)
    }

    /// The packets that tell the server to send back the messages of every namespace.
    pub fn listen_to_all_namespaces() -> (packets: Vec<WitcherPacket>)
        ensures
            packets@.len() == 7,
            forall|i: int|
                0 <= i < 7 ==> (#[trigger] packets@[i])@ == packet_of::<ListenToNamespace>(
                    listened_namespaces()[i],
                ),
    {
        let mut packets: Vec<WitcherPacket> = Vec::new();
        packets.push(
            Self::listen_to_namespace(ListenToNamespaceParams { namesp: WitcherNamespace::Config }),
        );
        packets.push(
            Self::listen_to_namespace(ListenToNamespaceParams { namesp: WitcherNamespace::Remote }),
        );
        packets.push(
            Self::listen_to_namespace(
                ListenToNamespaceParams { namesp: WitcherNamespace::ScriptCompiler },
            ),
        );
        packets.push(
            Self::listen_to_namespace(
                ListenToNamespaceParams { namesp: WitcherNamespace::ScriptDebugger },
            ),
        );
        packets.push(
            Self::listen_to_namespace(
                ListenToNamespaceParams { namesp: WitcherNamespace::ScriptProfiler },
            ),
        );
        packets.push(
            Self::listen_to_namespace(ListenToNamespaceParams { namesp: WitcherNamespace::Scripts }),
        );
        packets.push(
            Self::listen_to_namespace(ListenToNamespaceParams { namesp: WitcherNamespace::Utility }),
        );
        packets
    }
}

} // verus!
