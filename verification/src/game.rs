//! The guessing game: clients guess a number until one of them wins or time is up.
use crate::text::{str_parse_usize, str_trim};
use vstd::prelude::*;

verus! {

/// The smallest number that a client may have to guess.
pub const LOWEST_TARGET: usize = 1;

/// The largest number that a client may have to guess.
pub const HIGHEST_TARGET: usize = 100;

/// How long a game lasts at most, in seconds.
pub const GAME_SECONDS: u64 = 30;

/// How many announcements are kept for those who have not heard them.
pub const ANNOUNCEMENT_CAPACITY: usize = 2;

/// What ends the game, announced to the server and to all connections.
#[derive(Clone, Copy, Debug, PartialEq, Eq, Structural)]
pub enum Event {
    TimeOut,
    SomeoneWon,
}

////////////////////////////////////////////////////////////////////////////////
// Connections
////////////////////////////////////////////////////////////////////////////////

/// A client that plays.
#[derive(Clone, Copy, Debug, PartialEq, Eq, Structural)]
pub struct Connection {
    /// The number that the client is trying to guess.
    pub target: usize,
}

/// What happens on a connection.
pub enum ConnectionEvent<'a> {
    /// The client has sent a line: how many bytes were read, and the text. No
    /// byte is read at the end of the stream.
    Line { read: usize, text: &'a str },
    /// The end of the game has been announced.
    Announced(Event),
}

/// What a connection waits for after a turn.
#[derive(Clone, Copy, Debug, PartialEq, Eq, Structural)]
pub enum Next {
    /// The next line of the client, or an announcement.
    Line,
    /// An announcement only: the client has nothing more to say.
    Announcement,
    /// Nothing: the connection is over.
    Done,
}

/// What a connection does about it, in this order.
pub struct Turn {
    /// What to write to the client.
    pub reply: Option<&'static str>,
    /// What to announce to everyone.
    pub announce: Option<Event>,
    /// What to wait for.
    pub next: Next,
}

/// The contents of a [`Turn`].
pub struct TurnView {
    pub reply: Option<Seq<char>>,
    pub announce: Option<Event>,
    pub next: Next,
}

impl View for Turn {
    type V = TurnView;

    open spec fn view(&self) -> TurnView {
        TurnView {
            reply: match self.reply {
                Some(message) => Some(message@),
                None => None,
            },
            announce: self.announce,
            next: self.next,
        }
    }
}

/// The number that a line holds, with white space around it or not.
pub open spec fn guess_of(line: Seq<char>) -> Option<usize> {
    crate::text::parsed_usize(crate::text::trimmed(line))
}

/// The turn that answers a guess. The right one wins.
pub open spec fn guess_turn(target: usize, guess: Option<usize>) -> TurnView {
    match guess {
        None => TurnView {
            reply: Some("Invalid input. Please enter a number.\n"@),
            announce: None,
            next: Next::Line,
        },
        Some(number) => if number < target {
            TurnView { reply: Some("Too low!\n"@), announce: None, next: Next::Line }
        } else if number > target {
            TurnView { reply: Some("Too high!\n"@), announce: None, next: Next::Line }
        } else {
            TurnView { reply: Some("Correct!\n"@), announce: Some(Event::SomeoneWon), next: Next::Done }
        },
    }
}

/// The last message to a client that has not won.
pub open spec fn game_over_message(event: Event) -> Seq<char> {
    match event {
        Event::SomeoneWon => "Game over! Someone else won.\n"@,
        Event::TimeOut => "Game over! Time's up.\n"@,
    }
}

/// The turn of a connection with the given target. Where nothing was read, the
/// client has closed its side: nothing is done, and nothing more is read. Such a
/// client may still be listening, so it is told of the end of the game as well.
pub open spec fn connection_turn(target: usize, event: ConnectionEvent) -> TurnView {
    match event {
        ConnectionEvent::Line { read, text } => if read == 0 {
            TurnView { reply: None, announce: None, next: Next::Announcement }
        } else {
            guess_turn(target, guess_of(text@))
        },
        ConnectionEvent::Announced(event) => TurnView {
            reply: Some(game_over_message(event)),
            announce: None,
            next: Next::Done,
        },
    }
}

/// The number that a line holds.
pub fn read_guess(line: &str) -> (guess: Option<usize>)
    ensures
        guess == guess_of(line@),
{
    str_parse_usize(str_trim(line))
}

impl Connection {
    /// The turn that answers a guess, or a line that is none.
    pub fn judge(&self, guess: Option<usize>) -> (turn: Turn)
        ensures
            turn@ == guess_turn(self.target, guess),
    {
        if let Some(guess) = guess {
            if guess < self.target {
                Turn { reply: Some("Too low!\n"), announce: None, next: Next::Line }
            } else if guess > self.target {
                Turn { reply: Some("Too high!\n"), announce: None, next: Next::Line }
            } else {
                Turn { reply: Some("Correct!\n"), announce: Some(Event::SomeoneWon), next: Next::Done }
            }
        } else {
            Turn {
                reply: Some("Invalid input. Please enter a number.\n"),
                announce: None,
                next: Next::Line,
            }
        }
    }

    /// The turn of this connection.
    pub fn handle(&self, event: ConnectionEvent) -> (turn: Turn)
        ensures
            turn@ == connection_turn(self.target, event),
    {
        match event {
            ConnectionEvent::Line { read, text } => {
                if read == 0 {
                    return Turn { reply: None, announce: None, next: Next::Announcement };
                }
                self.judge(read_guess(text))
            },
            ConnectionEvent::Announced(Event::SomeoneWon) => {
                Turn { reply: Some("Game over! Someone else won.\n"), announce: None, next: Next::Done }
            },
            ConnectionEvent::Announced(Event::TimeOut) => {
                Turn { reply: Some("Game over! Time's up.\n"), announce: None, next: Next::Done }
            },
        }
    }
}

////////////////////////////////////////////////////////////////////////////////
// The server
////////////////////////////////////////////////////////////////////////////////

/// `rand::random_range` on an inclusive range: some number of the range. The call
/// fails on an empty range, and can fail where the system has no randomness to
/// give. Which number comes, and how often, is not stated.
#[verifier::external_body]
fn random_range(low: usize, high: usize) -> (number: usize)
    requires
        low <= high,
    ensures
        low <= number <= high,
{
    rand::random_range(low..=high)
}

/// The server of one game.
#[derive(Clone, Copy, Debug, PartialEq, Eq, Structural)]
pub struct Server {
    /// How many connections have been taken on and have not ended.
    pub open: usize,
    /// Whether the server has heard of the end of the game.
    pub ended: bool,
}

/// What happens to the server.
#[derive(Clone, Copy, Debug, PartialEq, Eq, Structural)]
pub enum ServerEvent {
    /// The end of the game has been announced.
    Announced,
    /// A client has connected.
    Accepted,
    /// A connection has ended: it has written all that it had to write, or has
    /// failed.
    Closed,
}

/// What the server does about it.
#[derive(Clone, Copy, Debug, PartialEq, Eq, Structural)]
pub enum ServerAction {
    /// Wait for what happens next.
    Wait,
    /// Let the client play.
    Play(Connection),
    /// Shut down.
    Shutdown,
}

/// What the server does about an event. Each client gets a target of its own,
/// whichever it is. The server shuts down as soon as the end of the game has been
/// announced and no connection is left.
pub open spec fn is_server_step(
    before: Server,
    event: ServerEvent,
    after: Server,
    action: ServerAction,
) -> bool {
    &&& after.open == before.open + (match event {
        ServerEvent::Announced => 0int,
        ServerEvent::Accepted => 1,
        ServerEvent::Closed => -1,
    })
    &&& after.ended == (before.ended || event is Announced)
    &&& action is Shutdown <==> after.ended && after.open == 0
    &&& action is Play <==> event is Accepted
    &&& action is Play ==> LOWEST_TARGET <= action->Play_0.target <= HIGHEST_TARGET
}

impl Server {
    /// The server of a game that nobody plays yet.
    pub fn new() -> (server: Server)
        ensures
            server == (Server { open: 0, ended: false }),
    {
        Server { open: 0, ended: false }
    }

    /// What is announced once the time of the game is over.
    pub fn time_is_up() -> (event: Event)
        ensures
            event == Event::TimeOut,
    {
        Event::TimeOut
    }

    /// What the server does. It accepts nobody once it has heard of the end.
    pub fn run(&mut self, event: ServerEvent) -> (action: ServerAction)
        requires
            event is Accepted ==> !old(self).ended && old(self).open < usize::MAX,
            event is Closed ==> old(self).open > 0,
        ensures
            is_server_step(*old(self), event, *final(self), action),
    {
        match event {
            ServerEvent::Announced => {
                self.ended = true;
            },
            ServerEvent::Accepted => {
                self.open = self.open + 1;
                let target: usize = random_range(LOWEST_TARGET, HIGHEST_TARGET);
                return ServerAction::Play(Connection { target });
            },
            ServerEvent::Closed => {
                self.open = self.open - 1;
            },
        }
        if self.ended && self.open == 0 {
            ServerAction::Shutdown
        } else {
            ServerAction::Wait
        }
    }
}

////////////////////////////////////////////////////////////////////////////////
// The game as a whole
////////////////////////////////////////////////////////////////////////////////

/// A client, from the moment at which it was accepted.
pub enum Player {
    /// Its connection waits for `next`.
    Playing { target: usize, next: Next },
    /// Its connection is over, and wrote `farewell` last. There is no farewell if
    /// the connection failed.
    Over { farewell: Option<Seq<char>> },
    /// The same, and the server has been told that the connection has ended.
    Closed { farewell: Option<Seq<char>> },
}

/// A game: the server, all clients that it has ever accepted, and what was
/// announced first. This is what everyone hears first, since announcements are
/// kept until all who are there have heard them.
#[verifier::ext_equal]
pub struct Game {
    pub server: Server,
    pub players: Seq<Player>,
    pub announced: Option<Event>,
}

/// What happens in a game.
pub enum GameStep<'a> {
    /// The time of the game is over.
    TimeUp,
    /// The server accepts a client.
    Accept { action: ServerAction },
    /// A client gets its turn.
    Turn { player: int, event: ConnectionEvent<'a> },
    /// The connection of a client fails.
    Fail { player: int },
    /// The server is told that a connection has ended.
    Close { player: int, action: ServerAction },
    /// The server hears an announcement.
    Hear { action: ServerAction },
}

impl<'a> GameStep<'a> {
    /// Whether the server shuts down at this step.
    pub open spec fn is_shutdown(self) -> bool {
        match self {
            GameStep::Accept { action } => action is Shutdown,
            GameStep::Close { action, .. } => action is Shutdown,
            GameStep::Hear { action } => action is Shutdown,
            _ => false,
        }
    }
}

/// The first announcement, if `event` is announced too.
pub open spec fn first_announced(announced: Option<Event>, event: Option<Event>) -> Option<Event> {
    if announced is Some {
        announced
    } else {
        event
    }
}

/// Whether `event` can happen on a connection that waits for `next`.
pub open spec fn can_happen(
    next: Next,
    announced: Option<Event>,
    event: ConnectionEvent,
) -> bool {
    match event {
        ConnectionEvent::Line { .. } => next is Line,
        ConnectionEvent::Announced(event) => next !is Done && announced == Some(event),
    }
}

/// A client after a turn of its connection.
pub open spec fn player_after(target: usize, turn: TurnView) -> Player {
    if turn.next is Done {
        Player::Over { farewell: turn.reply }
    } else {
        Player::Playing { target, next: turn.next }
    }
}

/// The game before any client has connected.
pub open spec fn new_game() -> Game {
    Game {
        server: Server { open: 0, ended: false },
        players: Seq::empty(),
        announced: None,
    }
}

/// Whether `step` leads from one state of the game to the other: the server and
/// the connections act as [`Server::run`] and [`Connection::handle`] say.
pub open spec fn is_game_step(before: Game, step: GameStep, after: Game) -> bool {
    match step {
        GameStep::TimeUp => after == (Game {
            announced: first_announced(before.announced, Some(Event::TimeOut)),
            ..before
        }),
        GameStep::Accept { action } => {
            &&& !before.server.ended
            &&& is_server_step(before.server, ServerEvent::Accepted, after.server, action)
            &&& after.players == before.players.push(
                Player::Playing { target: action->Play_0.target, next: Next::Line },
            )
            &&& after.announced == before.announced
        },
        GameStep::Turn { player, event } => {
            &&& 0 <= player < before.players.len()
            &&& before.players[player] is Playing
            &&& can_happen(before.players[player]->next, before.announced, event)
            &&& ({
                let target = before.players[player]->target;
                let turn = connection_turn(target, event);
                after == (Game {
                    server: before.server,
                    players: before.players.update(player, player_after(target, turn)),
                    announced: first_announced(before.announced, turn.announce),
                })
            })
        },
        GameStep::Fail { player } => {
            &&& 0 <= player < before.players.len()
            &&& before.players[player] is Playing
            &&& after == (Game {
                players: before.players.update(player, Player::Over { farewell: None }),
                ..before
            })
        },
        GameStep::Close { player, action } => {
            &&& 0 <= player < before.players.len()
            &&& before.players[player] is Over
            &&& is_server_step(before.server, ServerEvent::Closed, after.server, action)
            &&& after.players == before.players.update(
                player,
                Player::Closed { farewell: before.players[player]->Over_farewell },
            )
            &&& after.announced == before.announced
        },
        GameStep::Hear { action } => {
            &&& before.announced is Some
            &&& is_server_step(before.server, ServerEvent::Announced, after.server, action)
            &&& after.players == before.players
            &&& after.announced == before.announced
        },
    }
}

/// How many connections have not ended, as far as the server knows.
pub open spec fn open_connections(players: Seq<Player>) -> nat
    decreases players.len(),
{
    if players.len() == 0 {
        0
    } else {
        open_connections(players.drop_last()) + (if players.last() is Closed {
            0nat
        } else {
            1
        })
    }
}

/// Whether `farewell` is what a client was due: it has won, or has been told why
/// the game is over. A client whose connection failed could not be told.
pub open spec fn is_farewell(farewell: Option<Seq<char>>, announced: Option<Event>) -> bool {
    farewell matches Some(message) ==> {
        ||| message == "Correct!\n"@
        ||| announced is Some && message == game_over_message(announced->Some_0)
    }
}

/// What holds of a game at all times: the server knows how many connections are
/// open, it has heard of the end only if there was one, and no connection ended
/// without the right farewell.
pub open spec fn is_game(game: Game) -> bool {
    &&& game.server.open == open_connections(game.players)
    &&& game.server.ended ==> game.announced is Some
    &&& forall|i: int|
        0 <= i < game.players.len() ==> match #[trigger] game.players[i] {
            Player::Playing { next, .. } => next !is Done,
            Player::Over { farewell } => is_farewell(farewell, game.announced),
            Player::Closed { farewell } => is_farewell(farewell, game.announced),
        }
}

/// Whether a client whose connection is over has a farewell.
pub open spec fn is_told(player: Player) -> bool {
    match player {
        Player::Playing { .. } => true,
        Player::Over { farewell } => farewell is Some,
        Player::Closed { farewell } => farewell is Some,
    }
}

/// Whether every client whose connection is over has a farewell.
pub open spec fn all_told(game: Game) -> bool {
    forall|i: int| 0 <= i < game.players.len() ==> is_told(#[trigger] game.players[i])
}

proof fn lemma_open_update(players: Seq<Player>, i: int, player: Player)
    requires
        0 <= i < players.len(),
    ensures
        open_connections(players.update(i, player)) == open_connections(players) + (
        if player is Closed {
            0int
        } else {
            1
        }) - (if players[i] is Closed {
            0int
        } else {
            1
        }),
    decreases players.len(),
{
    let updated = players.update(i, player);
    if i == players.len() - 1 {
        assert(updated.drop_last() =~= players.drop_last());
    } else {
        lemma_open_update(players.drop_last(), i, player);
        assert(updated.drop_last() =~= players.drop_last().update(i, player));
    }
}

proof fn lemma_some_open(players: Seq<Player>)
    requires
        open_connections(players) > 0,
    ensures
        exists|i: int| 0 <= i < players.len() && #[trigger] players[i] !is Closed,
    decreases players.len(),
{
    let last = players.len() - 1;
    if players.last() is Closed {
        lemma_some_open(players.drop_last());
        let i = choose|i: int|
            0 <= i < players.drop_last().len() && #[trigger] players.drop_last()[i] !is Closed;
        assert(players[i] !is Closed);
    } else {
        assert(players[last] !is Closed);
    }
}

proof fn lemma_none_open(players: Seq<Player>, i: int)
    requires
        open_connections(players) == 0,
        0 <= i < players.len(),
    ensures
        players[i] is Closed,
    decreases players.len(),
{
    if i < players.len() - 1 {
        lemma_none_open(players.drop_last(), i);
        assert(players.drop_last()[i] == players[i]);
    }
}

////////////////////////////////////////////////////////////////////////////////
// Laws
////////////////////////////////////////////////////////////////////////////////

/// What holds of a game at all times holds at its start, and every step keeps it.
/// The server can take the step: it never hears of more connections that end than
/// it has taken on.
pub proof fn law_game_stays_a_game(before: Game, step: GameStep, after: Game)
    requires
        is_game(before),
        is_game_step(before, step, after),
    ensures
        is_game(new_game()),
        is_game(after),
        step is Close ==> before.server.open > 0,
{
    match step {
        GameStep::Accept { action } => {
            assert(after.players.drop_last() =~= before.players);
        },
        GameStep::Turn { player, event } => {
            let target = before.players[player]->target;
            lemma_open_update(
                before.players,
                player,
                player_after(target, connection_turn(target, event)),
            );
        },
        GameStep::Fail { player } => {
            lemma_open_update(before.players, player, Player::Over { farewell: None });
        },
        GameStep::Close { player, action } => {
            lemma_open_update(
                before.players,
                player,
                Player::Closed { farewell: before.players[player]->Over_farewell },
            );
        },
        _ => {},
    }
}

/// Only the failure of a connection leaves a client without a farewell: as long as
/// none fails, every client whose connection is over has one.
pub proof fn law_only_a_failure_leaves_a_client_untold(before: Game, step: GameStep, after: Game)
    requires
        is_game_step(before, step, after),
        all_told(before),
        step !is Fail,
    ensures
        all_told(new_game()),
        all_told(after),
{
}

/// A failure concerns one client only: unless the connection of a client itself
/// fails, it does not end without a farewell, and a farewell stays. A new client
/// has not missed any.
pub proof fn law_failure_leaves_the_other_clients_told(
    before: Game,
    step: GameStep,
    after: Game,
    player: int,
)
    requires
        is_game_step(before, step, after),
        0 <= player < after.players.len(),
        player < before.players.len() ==> is_told(before.players[player]),
        step != (GameStep::Fail { player }),
    ensures
        before.players.len() <= after.players.len(),
        is_told(after.players[player]),
        player < before.players.len() ==> match before.players[player] {
            Player::Over { farewell } => after.players[player] == (Player::Over { farewell })
                || after.players[player] == (Player::Closed { farewell }),
            Player::Closed { farewell } => after.players[player] == (Player::Closed { farewell }),
            Player::Playing { .. } => true,
        },
{
}

/// The server shuts down only once there has been an announcement, and every
/// client that it ever accepted has won or has been told what was announced, but
/// for those that had no farewell before, because their connection failed.
pub proof fn law_clients_are_told_before_shutdown(before: Game, step: GameStep, after: Game)
    requires
        is_game(before),
        is_game_step(before, step, after),
        step.is_shutdown(),
    ensures
        after.announced is Some,
        forall|i: int|
            0 <= i < after.players.len() ==> {
                &&& #[trigger] after.players[i] is Closed
                &&& is_farewell(after.players[i]->Closed_farewell, after.announced)
                &&& is_told(before.players[i]) ==> after.players[i]->Closed_farewell is Some
            },
        all_told(before) ==> all_told(after),
{
    law_game_stays_a_game(before, step, after);
    assert forall|i: int| 0 <= i < after.players.len() implies {
        &&& #[trigger] after.players[i] is Closed
        &&& is_farewell(after.players[i]->Closed_farewell, after.announced)
        &&& is_told(before.players[i]) ==> after.players[i]->Closed_farewell is Some
    } by {
        lemma_none_open(after.players, i);
    }
}

/// Once there has been an announcement, every connection that is not over can be
/// told, and is over after that. The server shuts down at the step at which it has
/// heard of the end and of the last connection that ended.
pub proof fn law_announced_game_comes_to_an_end(before: Game, step: GameStep, after: Game)
    requires
        is_game(before),
        is_game_step(before, step, after),
    ensures
        before.announced is Some ==> forall|i: int|
            0 <= i < before.players.len() && before.players[i] is Playing ==> {
                let event = ConnectionEvent::Announced(before.announced->Some_0);
                let turn = connection_turn(before.players[i]->target, event);
                &&& can_happen((#[trigger] before.players[i])->next, before.announced, event)
                &&& player_after(before.players[i]->target, turn) is Over
            },
        step is Close || step is Hear ==> (step.is_shutdown() <==> after.server.ended && (
        forall|i: int|
            0 <= i < after.players.len() ==> #[trigger] after.players[i] is Closed)),
{
    law_game_stays_a_game(before, step, after);
    if after.server.open == 0 {
        assert forall|i: int| 0 <= i < after.players.len() implies #[trigger] after.players[i] is Closed by {
            lemma_none_open(after.players, i);
        }
    } else {
        lemma_some_open(after.players);
    }
}

/// A connection goes on reading only after it has read something: at the end of
/// the stream it reads no more, writes nothing and announces nothing, and is idle
/// until the end of the game is announced.
pub proof fn law_connection_is_idle_at_the_end_of_the_stream(
    target: usize,
    event: ConnectionEvent,
)
    ensures
        connection_turn(target, event).next is Line ==> (event matches ConnectionEvent::Line {
            read,
            ..
        } && read > 0),
        (event matches ConnectionEvent::Line { read, .. } && read == 0) ==> connection_turn(
            target,
            event,
        ) == (TurnView { reply: None, announce: None, next: Next::Announcement }),
{
}

/// The contents of a turn are its reply, its announcement and what it waits for.
pub proof fn law_turn_is_what_it_holds(turn: Turn)
    ensures
        turn@.reply is Some <==> turn.reply is Some,
        turn.reply is Some ==> turn@.reply->Some_0 == turn.reply->Some_0@,
        turn@.announce == turn.announce,
        turn@.next == turn.next,
{
}

proof fn lemma_answers_differ()
    ensures
        "Too low!\n"@ != "Too high!\n"@,
        "Too low!\n"@ != "Correct!\n"@,
        "Too high!\n"@ != "Correct!\n"@,
        "Invalid input. Please enter a number.\n"@ != "Too low!\n"@,
        "Invalid input. Please enter a number.\n"@ != "Too high!\n"@,
        "Invalid input. Please enter a number.\n"@ != "Correct!\n"@,
{
    reveal_strlit("Too low!\n");
    reveal_strlit("Too high!\n");
    reveal_strlit("Correct!\n");
    reveal_strlit("Invalid input. Please enter a number.\n");
    assert("Too low!\n"@[0] == 'T' && "Correct!\n"@[0] == 'C');
    assert("Too low!\n"@.len() == 9 && "Too high!\n"@.len() == 10);
    assert("Too high!\n"@[0] == 'T');
    assert("Invalid input. Please enter a number.\n"@[0] == 'I');
}

/// The answer tells on which side of the target a guess lies, for every target and
/// every guess: too low exactly if it is below, too high exactly if it is above, and
/// correct exactly if it is the target. Only a line that is no number is invalid. The
/// four answers differ.
pub proof fn law_answer_tells_the_side(target: usize, guess: usize)
    ensures
        guess_turn(target, Some(guess)).reply == Some("Too low!\n"@) <==> guess < target,
        guess_turn(target, Some(guess)).reply == Some("Too high!\n"@) <==> guess > target,
        guess_turn(target, Some(guess)).reply == Some("Correct!\n"@) <==> guess == target,
        guess_turn(target, None).reply == Some("Invalid input. Please enter a number.\n"@),
        guess_turn(target, None).announce is None,
        guess_turn(target, None).next is Line,
        guess_turn(target, Some(guess)).announce == (if guess == target {
            Some(Event::SomeoneWon)
        } else {
            None
        }),
        guess_turn(target, Some(guess)).next is Done <==> guess == target,
        guess_turn(target, Some(guess)).next is Line <==> guess != target,
        "Too low!\n"@ != "Too high!\n"@,
        "Too low!\n"@ != "Correct!\n"@,
        "Too high!\n"@ != "Correct!\n"@,
        "Invalid input. Please enter a number.\n"@ != "Too low!\n"@,
        "Invalid input. Please enter a number.\n"@ != "Too high!\n"@,
        "Invalid input. Please enter a number.\n"@ != "Correct!\n"@,
{
    lemma_answers_differ();
}

/// The same of a line that a client sends: the answer goes by the number that the line
/// holds, and the line is invalid exactly if it holds none.
pub proof fn law_line_is_answered_by_its_number(target: usize, read: usize, text: &str)
    requires
        read > 0,
    ensures
        ({
            let reply = connection_turn(target, ConnectionEvent::Line { read, text }).reply;
            &&& reply == Some("Too low!\n"@) <==> guess_of(text@) is Some && guess_of(
                text@,
            )->Some_0 < target
            &&& reply == Some("Too high!\n"@) <==> guess_of(text@) is Some && guess_of(
                text@,
            )->Some_0 > target
            &&& reply == Some("Correct!\n"@) <==> guess_of(text@) == Some(target)
            &&& reply == Some("Invalid input. Please enter a number.\n"@) <==> guess_of(
                text@,
            ) is None
        }),
{
    lemma_answers_differ();
}

/// The number that a line holds is that of the text in it, whatever white space is
/// around the text: the same as without any.
pub proof fn law_guess_is_the_number_in_the_line(
    before: Seq<char>,
    text: Seq<char>,
    after: Seq<char>,
)
    requires
        forall|i: int|
            0 <= i < before.len() ==> crate::text::is_white_space(#[trigger] before[i]),
        forall|i: int| 0 <= i < after.len() ==> crate::text::is_white_space(#[trigger] after[i]),
        text.len() > 0,
        !crate::text::is_white_space(text.first()),
        !crate::text::is_white_space(text.last()),
    ensures
        guess_of(before + text + after) is Some <==> crate::text::parsed(text) is Some
            && crate::text::parsed(text)->Some_0 <= usize::MAX,
        guess_of(before + text + after) is Some ==> guess_of(before + text + after)->Some_0
            == crate::text::parsed(text)->Some_0,
        guess_of(before + after) is None,
{
    crate::text::law_trimming(before, text, after);
    crate::text::law_blank_text_is_trimmed_to_nothing(before + after);
    assert(crate::text::trimmed(before + after) =~= Seq::<char>::empty());
    crate::text::law_numbers_are_read_by_their_digits(Seq::empty(), '0');
}

/// Each announcement has a message of its own, which is the last thing that every
/// client is told, whatever its target.
pub proof fn law_clients_are_told_why_the_game_is_over(target: usize)
    ensures
        connection_turn(target, ConnectionEvent::Announced(Event::SomeoneWon)).reply == Some(
            "Game over! Someone else won.\n"@,
        ),
        connection_turn(target, ConnectionEvent::Announced(Event::TimeOut)).reply == Some(
            "Game over! Time's up.\n"@,
        ),
        connection_turn(target, ConnectionEvent::Announced(Event::SomeoneWon)).next is Done,
        connection_turn(target, ConnectionEvent::Announced(Event::TimeOut)).next is Done,
        connection_turn(target, ConnectionEvent::Announced(Event::SomeoneWon)).announce is None,
        connection_turn(target, ConnectionEvent::Announced(Event::TimeOut)).announce is None,
{
}

/// The server counts its connections up and down one by one, never forgets that it has
/// heard of the end, lets every client play that connects and nobody else, with a
/// target from 1 to 100, and shuts down exactly with the last connection after the end.
pub proof fn law_server_counts_its_connections(
    before: Server,
    event: ServerEvent,
    after: Server,
    action: ServerAction,
)
    requires
        is_server_step(before, event, after, action),
    ensures
        event is Accepted ==> after.open == before.open + 1,
        event is Closed ==> after.open == before.open - 1,
        event is Announced ==> after.open == before.open,
        after.ended <==> before.ended || event is Announced,
        action is Play <==> event is Accepted,
        action is Play ==> 1 <= action->Play_0.target <= 100,
        action is Shutdown <==> after.ended && after.open == 0,
{
}

/// A client wins, and this is announced, exactly by guessing the target.
pub proof fn law_only_the_target_wins(target: usize, read: usize, text: &str)
    requires
        read > 0,
    ensures
        ({
            let turn = connection_turn(target, ConnectionEvent::Line { read, text });
            &&& turn.announce == Some(Event::SomeoneWon) <==> guess_of(text@) == Some(target)
            &&& turn.announce is None <==> guess_of(text@) != Some(target)
            &&& turn.next is Done <==> guess_of(text@) == Some(target)
            &&& turn.next is Line <==> guess_of(text@) != Some(target)
            &&& turn.reply is Some
        }),
{
}

/// The end of the game is announced exactly when time is up or a client guesses
/// its target, whichever comes first. The server hears of the end only after that.
pub proof fn law_game_ends_by_time_or_by_a_win(before: Game, step: GameStep, after: Game)
    requires
        is_game(before),
        is_game_step(before, step, after),
    ensures
        before.announced is Some ==> after.announced == before.announced,
        before.announced is None ==> {
            &&& after.announced == Some(Event::TimeOut) <==> step is TimeUp
            &&& after.announced == Some(Event::SomeoneWon) <==> (step matches GameStep::Turn {
                player,
                event: ConnectionEvent::Line { read, text },
            } && read > 0 && guess_of(text@) == Some(before.players[player]->target))
        },
        after.server.ended ==> after.announced is Some,
{
    law_game_stays_a_game(before, step, after);
}

/// Every target can be guessed: its decimal notation, with any white space around
/// it, is the guess of the target.
pub proof fn law_every_target_can_be_guessed(target: usize, before: Seq<char>, after: Seq<char>)
    requires
        crate::text::is_blank(before),
        crate::text::is_blank(after),
    ensures
        guess_of(before + crate::text::decimal(target as nat) + after) == Some(target),
{
    crate::text::law_decimal_parses(target);
    crate::text::law_trimming(before, crate::text::decimal(target as nat), after);
}

/// The answers to two guesses agree: a number below one that is too low is too
/// low, and a number above one that is too high is too high.
pub proof fn law_answers_agree(target: usize, guess: usize, other: usize)
    ensures
        guess < target && other <= guess ==> guess_turn(target, Some(other)) == guess_turn(
            target,
            Some(guess),
        ),
        guess > target && other >= guess ==> guess_turn(target, Some(other)) == guess_turn(
            target,
            Some(guess),
        ),
{
}

/// An announcement ends the game for every client: whatever its target, it is told
/// why the game is over, announces nothing itself, and is done.
pub proof fn law_announcement_ends_every_connection(connections: Seq<Connection>, event: Event)
    ensures
        forall|i: int|
            0 <= i < connections.len() ==> connection_turn(
                (#[trigger] connections[i]).target,
                ConnectionEvent::Announced(event),
            ) == (TurnView {
                reply: Some(game_over_message(event)),
                announce: None,
                next: Next::Done,
            }),
        game_over_message(Event::TimeOut) != game_over_message(Event::SomeoneWon),
{
    reveal_strlit("Game over! Someone else won.\n");
    reveal_strlit("Game over! Time's up.\n");
    assert(game_over_message(Event::TimeOut).len() != game_over_message(Event::SomeoneWon).len());
}

} // verus!
