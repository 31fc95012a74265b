# macro_expand

Macro expansion for the grammars of a parser generator, written and proved in Verus.

A grammar may define macros, which are nonterminals with parameters, and may use them wherever
a symbol can stand, along with groups `(X Y)` and repetitions `X*`, `X+`, `X?`:

    Ids = Comma<"Id">;
    Comma<E>: Vec<E> = ~v:(~E ",")* ~e:E? => v.into_iter().chain(e).collect();

Expansion turns such a grammar into one of plain nonterminals. Each compound symbol gives way
to a nonterminal named by the text of the symbol, here `Comma<"Id">`, `(~"Id" ",")*`,
`(~"Id" ",")` and `"Id"?`, and each of these is added to the grammar once.

## Entry points

- `expand_macros(grammar)` takes grammars whose expansion comes to an end.
- `expand_macros_within(grammar, rounds)` takes any grammar and gives up after some rounds.

## Layout

| module        | what is in it                                                          |
|---------------|------------------------------------------------------------------------|
| `parse_tree`  | the parse tree, and the model of each of its types                     |
| `canonical`   | the text of a symbol                                                   |
| `norm_util`   | which symbols of a group yield its value                               |
| `error`       | errors and their messages                                              |
| `pattern`     | regular expressions                                                    |
| `fold`        | compound symbols give way to nonterminals                              |
| `subst`       | parameters give way to arguments                                       |
| `expansion`   | the nonterminal that a compound symbol stands for                      |
| `stage`       | the course of an expansion, round by round                             |
| `expander`    | the program                                                            |
| `grammar`     | the entry points                                                       |
| `laws`        | an expanded grammar is flat; expanding it again changes nothing; ...   |
| `history`     | what is used is defined, once; what is defined is used                 |
| `termination` | which expansions give an answer and come to an end                     |

## What is not proved

`pattern::search` calls `regex::Regex::new` and `regex::Regex::is_match`. Of these it is taken
on trust that they are functions of the pattern and the text, and for the rejection of a
pattern also of the machine's word size. Everything else is verified.
