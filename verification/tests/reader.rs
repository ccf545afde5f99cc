use pgn_reader::{Color, Nag, Outcome, RawComment, RawHeader, Skip, SliceReader, Visitor};

#[derive(Debug, PartialEq, Eq, Clone)]
enum Call {
    BeginGame,
    BeginHeaders,
    Header(Vec<u8>, Vec<u8>),
    EndHeaders,
    San(Vec<u8>),
    Nag(u8),
    Comment(Vec<u8>),
    BeginVariation,
    EndVariation,
    Outcome(Option<Outcome>),
    EndGame,
}

struct Recorder {
    calls: Vec<Call>,
    skip_movetext: bool,
    skip_variations: bool,
}

impl Recorder {
    fn new(skip_movetext: bool, skip_variations: bool) -> Recorder {
        Recorder { calls: Vec::new(), skip_movetext, skip_variations }
    }
}

impl Visitor for Recorder {
    type Result = Vec<Call>;

    fn begin_game(&mut self) {
        self.calls.push(Call::BeginGame);
    }

    fn begin_headers(&mut self) {
        self.calls.push(Call::BeginHeaders);
    }

    fn header(&mut self, key: &[u8], value: RawHeader<'_>) {
        self.calls.push(Call::Header(key.to_vec(), value.as_bytes().to_vec()));
    }

    fn end_headers(&mut self) -> Skip {
        self.calls.push(Call::EndHeaders);
        Skip(self.skip_movetext)
    }

    fn san(&mut self, san: &[u8]) {
        self.calls.push(Call::San(san.to_vec()));
    }

    fn nag(&mut self, nag: Nag) {
        self.calls.push(Call::Nag(nag.0));
    }

    fn comment(&mut self, comment: RawComment<'_>) {
        self.calls.push(Call::Comment(comment.as_bytes().to_vec()));
    }

    fn begin_variation(&mut self) -> Skip {
        self.calls.push(Call::BeginVariation);
        Skip(self.skip_variations)
    }

    fn end_variation(&mut self) {
        self.calls.push(Call::EndVariation);
    }

    fn outcome(&mut self, outcome: Option<Outcome>) {
        self.calls.push(Call::Outcome(outcome));
    }

    fn end_game(&mut self) -> Vec<Call> {
        self.calls.push(Call::EndGame);
        std::mem::take(&mut self.calls)
    }
}

struct Moves {
    moves: Vec<Vec<u8>>,
}

impl Visitor for Moves {
    type Result = Vec<Vec<u8>>;

    fn san(&mut self, san: &[u8]) {
        self.moves.push(san.to_vec());
    }

    fn begin_variation(&mut self) -> Skip {
        Skip(true)
    }

    fn end_game(&mut self) -> Vec<Vec<u8>> {
        std::mem::take(&mut self.moves)
    }
}

fn header(key: &str, value: &str) -> Call {
    Call::Header(key.as_bytes().to_vec(), value.as_bytes().to_vec())
}

fn san(token: &str) -> Call {
    Call::San(token.as_bytes().to_vec())
}

fn comment(text: &str) -> Call {
    Call::Comment(text.as_bytes().to_vec())
}

fn read_all(pgn: &[u8], skip_movetext: bool, skip_variations: bool) -> Vec<Vec<Call>> {
    let mut reader = SliceReader::new(pgn);
    let mut visitor = Recorder::new(skip_movetext, skip_variations);
    let mut games = Vec::new();
    while let Some(game) = reader.read_game(&mut visitor) {
        games.push(game);
        assert!(games.len() <= pgn.len());
    }
    assert_eq!(reader.remaining(), 0);
    games
}

#[test]
fn reads_a_whole_game() {
    let pgn = b"[Event \"Casual\"]\n[White \"A\"]\n\n1. e4 e5 2. Nf3 $1 {book} Nc6 1-0\n";
    let games = read_all(pgn, false, false);
    assert_eq!(
        games,
        vec![vec![
            Call::BeginGame,
            Call::BeginHeaders,
            header("Event", "Casual"),
            header("White", "A"),
            Call::EndHeaders,
            san("e4"),
            san("e5"),
            san("Nf3"),
            Call::Nag(1),
            comment("book"),
            san("Nc6"),
            Call::Outcome(Some(Outcome::Decisive { winner: Color::White })),
            Call::EndGame,
        ]]
    );
}

#[test]
fn header_value_comes_through_unchanged() {
    let games = read_all(b"[Site \"Berlin, somewhere\"]\n\n*\n", false, false);
    assert_eq!(games.len(), 1);
    assert_eq!(games[0][2], header("Site", "Berlin, somewhere"));
    assert_eq!(RawHeader(b"Berlin, somewhere").decode().as_ref(), b"Berlin, somewhere");
}

#[test]
fn header_value_keeps_its_escapes() {
    let games = read_all(b"[Event \"\\\"a\\\\b\\\"\"]\n\n*\n", false, false);
    assert_eq!(games[0][2], header("Event", "\\\"a\\\\b\\\""));
    assert_eq!(RawHeader(b"\\\"a\\\\b\\\"").decode().as_ref(), b"\"a\\b\"");
}

#[test]
fn skipped_movetext_is_not_reported() {
    let pgn = b"[Event \"One\"]\n\n1. e4 {hi} (1. d4) e5 $2 1-0\n\n[Event \"Two\"]\n\n1. c4 *\n";
    let games = read_all(pgn, true, false);
    assert_eq!(
        games,
        vec![
            vec![
                Call::BeginGame,
                Call::BeginHeaders,
                header("Event", "One"),
                Call::EndHeaders,
                Call::EndGame,
            ],
            vec![
                Call::BeginGame,
                Call::BeginHeaders,
                header("Event", "Two"),
                Call::EndHeaders,
                Call::EndGame,
            ],
        ]
    );
}

#[test]
fn skip_game_goes_past_the_movetext() {
    let pgn = b"[Event \"One\"]\n\n1. e4 {hi} (1. d4) e5 $2 1-0\n\n[Event \"Two\"]\n\n1. c4 *\n";
    let mut reader = SliceReader::new(pgn);
    assert!(reader.skip_game());
    assert!(reader.buffer().starts_with(b"[Event \"Two\"]"));
    let mut visitor = Recorder::new(false, false);
    let game = reader.read_game(&mut visitor).unwrap();
    assert_eq!(game[2], header("Event", "Two"));
    assert_eq!(game[4], san("c4"));
    assert!(!reader.skip_game());
    assert_eq!(reader.remaining(), 0);
}

#[test]
fn skipped_variations_report_no_moves() {
    let mut reader = SliceReader::new(b"e4 (d4 (Nf3) Nf6) e5");
    let mut visitor = Moves { moves: Vec::new() };
    let moves = reader.read_game(&mut visitor).unwrap();
    assert_eq!(moves, vec![b"e4".to_vec(), b"e5".to_vec()]);
    assert_eq!(reader.read_game(&mut visitor), None);
}

#[test]
fn skipped_variations_are_opened_and_closed() {
    let games = read_all(b"e4 (d4 (Nf3) Nf6) e5", false, true);
    assert_eq!(
        games,
        vec![vec![
            Call::BeginGame,
            Call::BeginHeaders,
            Call::EndHeaders,
            san("e4"),
            Call::BeginVariation,
            Call::EndVariation,
            san("e5"),
            Call::EndGame,
        ]]
    );
}

#[test]
fn variations_nest() {
    let games = read_all(b"e4 (d4 (Nf3) Nf6) e5", false, false);
    assert_eq!(
        games,
        vec![vec![
            Call::BeginGame,
            Call::BeginHeaders,
            Call::EndHeaders,
            san("e4"),
            Call::BeginVariation,
            san("d4"),
            Call::BeginVariation,
            san("Nf3"),
            Call::EndVariation,
            san("Nf6"),
            Call::EndVariation,
            san("e5"),
            Call::EndGame,
        ]]
    );
}

#[test]
fn comments_hide_parentheses_in_skipped_variations() {
    let games = read_all(b"e4 (d4 {not ) yet} ; nor ) here\n d5) e5", false, true);
    assert_eq!(
        games[0],
        vec![
            Call::BeginGame,
            Call::BeginHeaders,
            Call::EndHeaders,
            san("e4"),
            Call::BeginVariation,
            Call::EndVariation,
            san("e5"),
            Call::EndGame,
        ]
    );
}

#[test]
fn header_without_closing_quote_ends_with_its_line() {
    let pgn = b"[Event \"Broken]\n[Site \"Here\"]\n\ne4 *\n";
    let games = read_all(pgn, false, false);
    assert_eq!(
        games,
        vec![vec![
            Call::BeginGame,
            Call::BeginHeaders,
            header("Event", "Broken]"),
            header("Site", "Here"),
            Call::EndHeaders,
            san("e4"),
            Call::Outcome(None),
            Call::EndGame,
        ]]
    );
}

#[test]
fn header_without_quote_is_all_key() {
    let games = read_all(b"[Event]\n[Site \"Here\"]\n\n*\n", false, false);
    assert_eq!(games[0][2], header("Event]", ""));
    assert_eq!(games[0][3], header("Site", "Here"));
}

#[test]
fn header_cut_off_by_the_end_of_input() {
    let games = read_all(b"[Event", false, false);
    assert_eq!(
        games,
        vec![vec![Call::BeginGame, Call::BeginHeaders, Call::EndHeaders, Call::EndGame]]
    );
    let games = read_all(b"[Event \"Cut", false, false);
    assert_eq!(games[0][2], header("Event", "Cut"));
}

#[test]
fn header_key_loses_one_space_only() {
    let games = read_all(b"[Event  \"x\"]\n[\"y\"]\n[Z\"z\"]\n\n*", false, false);
    assert_eq!(games[0][2], header("Event ", "x"));
    assert_eq!(games[0][3], header("", "y"));
    assert_eq!(games[0][4], header("Z", "z"));
}

#[test]
fn escaped_quote_does_not_end_a_value() {
    let games = read_all(b"[Event \"a\\\"b\"]\n[Site \"c\\\\\"]\n\n*", false, false);
    assert_eq!(games[0][2], header("Event", "a\\\"b"));
    assert_eq!(games[0][3], header("Site", "c\\\\"));
}

#[test]
fn percent_lines_are_passed_over() {
    let pgn = b"% leading\n[Event \"x\"]\n% between\n[Site \"y\"] % trailing\n\n\
        e4\n% escaped e5\nd5 *";
    let games = read_all(pgn, false, false);
    assert_eq!(
        games,
        vec![vec![
            Call::BeginGame,
            Call::BeginHeaders,
            header("Event", "x"),
            header("Site", "y"),
            Call::EndHeaders,
            san("e4"),
            san("d5"),
            Call::Outcome(None),
            Call::EndGame,
        ]]
    );
}

#[test]
fn empty_input_holds_no_game() {
    let mut visitor = Recorder::new(false, false);
    assert_eq!(SliceReader::new(b"").read_game(&mut visitor), None);
    assert_eq!(SliceReader::new(b" \t\r\n\n  ").read_game(&mut visitor), None);
    assert_eq!(SliceReader::new(b"\n% only a comment\n").read_game(&mut visitor), None);
    assert_eq!(SliceReader::new(b"\xef\xbb\xbf\n").read_game(&mut visitor), None);
    assert!(visitor.calls.is_empty());
    assert!(!SliceReader::new(b"").skip_game());
    assert!(!SliceReader::new(b"  \n").skip_game());
}

#[test]
fn byte_order_mark_is_skipped_once() {
    let pgn = b"\xef\xbb\xbf[Event \"x\"]\n\n*\n\n\xef\xbb\xbf[Event \"y\"]\n\n*";
    let games = read_all(pgn, false, false);
    assert_eq!(games.len(), 3);
    assert_eq!(games[0][2], header("Event", "x"));
    assert_eq!(
        games[1],
        vec![
            Call::BeginGame,
            Call::BeginHeaders,
            Call::EndHeaders,
            san("\u{feff}[Event"),
            san("\"y\"]"),
            Call::EndGame,
        ]
    );
}

#[test]
fn results_are_reported() {
    let games = read_all(b"1-0\n\n0-1\n\n1/2-1/2\n\n*\n\n1-1", false, false);
    let outcomes: Vec<Call> = games.iter().map(|game| game[3].clone()).collect();
    assert_eq!(
        outcomes,
        vec![
            Call::Outcome(Some(Outcome::Decisive { winner: Color::White })),
            Call::Outcome(Some(Outcome::Decisive { winner: Color::Black })),
            Call::Outcome(Some(Outcome::Draw)),
            Call::Outcome(None),
            san("1-1"),
        ]
    );
}

#[test]
fn tokens_are_told_apart() {
    let games = read_all(b"1. e4! ?? 1... $7 $x 12 O-O-O+ }x", false, false);
    assert_eq!(
        games[0],
        vec![
            Call::BeginGame,
            Call::BeginHeaders,
            Call::EndHeaders,
            san("e4!"),
            Call::Nag(4),
            Call::Nag(7),
            san("$x"),
            san("O-O-O+"),
            san("x"),
            Call::EndGame,
        ]
    );
}

#[test]
fn comments_are_reported() {
    let games = read_all(b"e4 {a {b} c} e5 ; to the end\r\nd4 {open", false, false);
    assert_eq!(
        games[0],
        vec![
            Call::BeginGame,
            Call::BeginHeaders,
            Call::EndHeaders,
            san("e4"),
            comment("a {b"),
            san("c"),
            san("e5"),
            comment(" to the end\r"),
            san("d4"),
            comment("open"),
            Call::EndGame,
        ]
    );
}

#[test]
fn movetext_ends_at_an_empty_line_or_a_header() {
    let games = read_all(b"e4\ne5\n\nd4\r\n\r\nc4\n[Event \"x\"]\n\nf4", false, false);
    let moves: Vec<Vec<Call>> = games
        .iter()
        .map(|game| game.iter().filter(|call| matches!(call, Call::San(_))).cloned().collect())
        .collect();
    assert_eq!(
        moves,
        vec![vec![san("e4"), san("e5")], vec![san("d4")], vec![san("c4")], vec![san("f4")]]
    );
}

#[test]
fn primitives_move_as_described() {
    let mut reader = SliceReader::new(b"  % note\n\tabc]  \nrest");
    assert_eq!(reader.peek(), Some(b' '));
    reader.skip_whitespace();
    assert_eq!(reader.buffer(), b"abc]  \nrest");
    assert_eq!(reader.bump(), Some(b'a'));
    reader.skip_until(b']');
    assert_eq!(reader.buffer(), b"]  \nrest");
    reader.skip_ket();
    assert_eq!(reader.buffer(), b"rest");
    assert!(reader.fill_buffer());
    assert_eq!(reader.remaining(), 4);
    reader.consume(2);
    assert_eq!(reader.buffer(), b"st");
    reader.skip_line();
    assert_eq!(reader.remaining(), 0);
    assert_eq!(reader.peek(), None);
    assert_eq!(reader.bump(), None);
    assert!(!reader.fill_buffer());
    reader.consume_all();
    assert_eq!(reader.remaining(), 0);
}

#[test]
fn skip_bom_looks_once() {
    let mut reader = SliceReader::new(b"\xef\xbb\xbf\xef\xbb\xbfx");
    reader.skip_bom();
    assert_eq!(reader.remaining(), 4);
    reader.skip_bom();
    assert_eq!(reader.remaining(), 4);
}

#[test]
fn skip_movetext_and_read_movetext_end_alike() {
    let pgn: &[u8] = b"e4 {a\n\nb} (d4 ; x\n\n) e5\n% [\n\n[Event \"x\"]";
    let mut skipping = SliceReader::new(pgn);
    skipping.skip_movetext();
    let mut reading = SliceReader::new(pgn);
    reading.read_movetext(&mut Recorder::new(false, false));
    assert_eq!(skipping.remaining(), reading.remaining());
    let mut passing = SliceReader::new(pgn);
    passing.read_movetext(&mut Recorder::new(false, true));
    assert_eq!(skipping.remaining(), passing.remaining());
    assert_eq!(skipping.buffer(), b"\n) e5\n% [\n\n[Event \"x\"]");
}

#[test]
fn skip_variation_stops_at_the_closing_parenthesis() {
    let mut reader = SliceReader::new(b"d4 (Nf3 {)}) Nf6) e5");
    reader.skip_variation();
    assert_eq!(reader.buffer(), b") e5");
    let mut reader = SliceReader::new(b"d4\n\n) e5");
    reader.skip_variation();
    assert_eq!(reader.buffer(), b"\n\n) e5");
}

#[test]
fn a_stretch_reads_like_the_whole() {
    let pgn: &[u8] = b"[Event \"One\"]\n\n1. e4 (1. d4) e5 {x} 1-0\n\n[Event \"Two\"]\n\nd4 *\n";
    let mut whole = SliceReader::new(pgn);
    let first = whole.read_game(&mut Recorder::new(false, true)).unwrap();
    let second_at = pgn.len() - whole.remaining();
    let second = whole.read_game(&mut Recorder::new(false, true)).unwrap();
    for end in second_at + 1..=pgn.len() {
        let mut stretch = SliceReader::new(&pgn[..end]);
        assert_eq!(stretch.read_game(&mut Recorder::new(false, true)).unwrap(), first);
        assert_eq!(end - stretch.remaining(), second_at);
    }
    let mut rest = SliceReader::new(&pgn[second_at..]);
    rest.skip_bom();
    assert_eq!(rest.read_game(&mut Recorder::new(false, true)).unwrap(), second);
    assert_eq!(rest.remaining(), 0);
}

#[test]
fn the_same_answers_give_the_same_calls() {
    let pgn: &[u8] = b"[Event \"One\"]\n\n1. e4 (1. d4 (1. c4)) e5 $3 ; done\n*";
    for skip_movetext in [false, true] {
        for skip_variations in [false, true] {
            let once = read_all(pgn, skip_movetext, skip_variations);
            let twice = read_all(pgn, skip_movetext, skip_variations);
            assert_eq!(once, twice);
        }
    }
}

#[test]
fn blank_input_is_consumed() {
    let mut reader = SliceReader::new(b" \r\n\t \n");
    assert_eq!(reader.read_game(&mut Recorder::new(false, false)), None);
    assert_eq!(reader.remaining(), 0);
}

struct Random(u64);

impl Random {
    fn next(&mut self) -> u64 {
        self.0 ^= self.0 << 13;
        self.0 ^= self.0 >> 7;
        self.0 ^= self.0 << 17;
        self.0
    }

    fn soup(&mut self, len: usize) -> Vec<u8> {
        let alphabet: &[u8] = b"[]\"\\\n\n\n\r   %{};()e4Nf1-0/2*$!?.\xef\xbb\xbf";
        (0..len).map(|_| alphabet[(self.next() % alphabet.len() as u64) as usize]).collect()
    }
}

#[test]
fn a_game_ends_at_the_same_byte_whatever_is_skipped() {
    let mut random = Random(0x853c49e6748fea9b);
    for _ in 0..300 {
        let len = (random.next() % 200) as usize;
        let pgn = random.soup(len);
        let mut readers = [
            SliceReader::new(&pgn),
            SliceReader::new(&pgn),
            SliceReader::new(&pgn),
            SliceReader::new(&pgn),
        ];
        loop {
            let before = readers[0].remaining();
            let found = [
                readers[0].read_game(&mut Recorder::new(false, false)).is_some(),
                readers[1].read_game(&mut Recorder::new(false, true)).is_some(),
                readers[2].read_game(&mut Recorder::new(true, false)).is_some(),
                readers[3].skip_game(),
            ];
            assert_eq!(found, [found[0]; 4]);
            for reader in &readers {
                assert_eq!(reader.remaining(), readers[0].remaining());
            }
            if !found[0] {
                assert_eq!(readers[0].remaining(), 0);
                break;
            }
            assert!(readers[0].remaining() < before);
        }
    }
}

#[test]
fn calls_of_a_game_are_well_formed() {
    let mut random = Random(0xda942042e4dd58b5);
    for _ in 0..300 {
        let len = (random.next() % 300) as usize;
        let pgn = random.soup(len);
        for game in read_all(&pgn, false, false) {
            assert_eq!(game[0], Call::BeginGame);
            assert_eq!(game[1], Call::BeginHeaders);
            assert_eq!(game[game.len() - 1], Call::EndGame);
            let end = game.iter().position(|call| *call == Call::EndHeaders).unwrap();
            assert!(game[2..end].iter().all(|call| matches!(call, Call::Header(_, _))));
            assert!(game[end + 1..game.len() - 1].iter().all(|call| matches!(
                call,
                Call::San(_)
                    | Call::Nag(_)
                    | Call::Comment(_)
                    | Call::BeginVariation
                    | Call::EndVariation
                    | Call::Outcome(_)
            )));
        }
    }
}

struct Plain {
    moves: Vec<Vec<u8>>,
}

impl Visitor for Plain {
    type Result = Vec<Vec<u8>>;

    fn san(&mut self, san: &[u8]) {
        self.moves.push(san.to_vec());
    }

    fn end_game(&mut self) -> Vec<Vec<u8>> {
        std::mem::take(&mut self.moves)
    }
}

#[test]
fn a_visitor_skips_nothing_unless_it_says_so() {
    let mut visitor = Plain { moves: Vec::new() };
    assert_eq!(visitor.end_headers(), Skip(false));
    assert_eq!(visitor.begin_variation(), Skip(false));
    let mut reader = SliceReader::new(b"[Event \"x\"]\n\ne4 (d4 (Nf3)) e5");
    let moves = reader.read_game(&mut visitor).unwrap();
    assert_eq!(moves, vec![b"e4".to_vec(), b"d4".to_vec(), b"Nf3".to_vec(), b"e5".to_vec()]);
}
