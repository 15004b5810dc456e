# artifactsmmo_semi_auto_bot

The decision logic of a semi-autonomous bot for the
[ArtifactsMMO](https://artifactsmmo.com/) game, verified with Verus.

## Layout

- `src/` is the verified library:
  - `bank`, `inventory`: reservations of items held in the bank and in a
    character's inventory, with what each character may withdraw or use.
  - `orderboard`: orders for items, served by purpose and age, and how
    deposits are dealt out to them.
  - `character`, `account`: what a character and the account hold, the checks
    made before each game command, the goals a character works toward, and the
    steps of its main loop.
  - `gear_finder`, `gear_assembly`, `combat_gears`, `leveling_helper`: the
    candidate item sets for gears, the gears and combat gears assembled from
    them, and the crafts chosen to level a skill.
  - `bot_config`: the configuration of the bot and of each character.
  - `sdk`: the game's types and the fight and gathering cooldown formulas.
  - `error`: the errors of the game commands.
- `tests/` runs the library on concrete values.
- `app/` reads `ArtifactsMMO.toml`, reports the configuration of each
  character, and toggles a character's idle flag and skills.

The laws that hold across functions stand in `src/` as public proof functions
whose names begin with `law_`.
